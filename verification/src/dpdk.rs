use vstd::prelude::*;

verus! {

/// Configuration for capture from a DPDK-managed port.
#[derive(Debug, Clone)]
pub struct DpdkConfig {
    /// EAL arguments (first element is the program name).
    pub eal_args: Vec<String>,
    /// Ethernet port to capture from.
    pub port_id: u16,
    /// RX queue index (typically 0 for single-queue setups).
    pub rx_queue_id: u16,
    /// Number of RX ring descriptors.
    pub num_rx_desc: u16,
    /// Packet mempool size (must be 2^n - 1).
    pub mempool_size: u32,
    /// Per-core mempool cache size.
    pub mempool_cache_size: u32,
    /// Maximum packets per `rx_burst` call.
    pub burst_size: u16,
}

impl Default for DpdkConfig {
    /// EAL arguments `netshield -l 0 -n 4`, port 0, queue 0, 1024 RX
    /// descriptors, a mempool of 8191 with a cache of 250, bursts of 32.
    fn default() -> (c: DpdkConfig)
        ensures
            c.eal_args@.len() == 5,
            c.eal_args@[0]@ == "netshield"@,
            c.eal_args@[1]@ == "-l"@,
            c.eal_args@[2]@ == "0"@,
            c.eal_args@[3]@ == "-n"@,
            c.eal_args@[4]@ == "4"@,
            c.port_id == 0,
            c.rx_queue_id == 0,
            c.num_rx_desc == 1024,
            c.mempool_size == 8191,
            c.mempool_cache_size == 250,
            c.burst_size == 32,
    {
        let mut eal_args: Vec<String> = Vec::new();
        eal_args.push(String::from_str("netshield"));
        eal_args.push(String::from_str("-l"));
        eal_args.push(String::from_str("0"));
        eal_args.push(String::from_str("-n"));
        eal_args.push(String::from_str("4"));
        DpdkConfig {
            eal_args,
            port_id: 0,
            rx_queue_id: 0,
            num_rx_desc: 1024,
            mempool_size: 8191,
            mempool_cache_size: 250,
            burst_size: 32,
        }
    }
}

/// Errors that can occur during DPDK initialization.
#[derive(Debug, Clone, Copy, PartialEq, Eq, Structural)]
pub enum DpdkError {
    /// EAL initialization failed with this code.
    EalInit(i32),
    /// No DPDK-managed ports are available.
    NoPorts,
    /// The port (first) is not among the ports detected (second).
    PortNotFound(u16, u16),
    /// Port initialization failed with this code.
    PortInit(i32),
    /// An EAL argument contains an interior NUL byte.
    NulArg,
}

/// A string holds a NUL character.
pub open spec fn has_nul(s: Seq<char>) -> bool {
    exists|i: int| 0 <= i < s.len() && s[i] == '\0'
}

/// Whether an EAL argument can be handed to C: `NulArg` when any holds a
/// NUL character.
pub fn check_eal_args(args: &Vec<String>) -> (r: Result<(), DpdkError>)
    ensures
        r is Err <==> exists|i: int| 0 <= i < args@.len() && has_nul(#[trigger] args@[i]@),
        r is Err ==> r == Err::<(), DpdkError>(DpdkError::NulArg),
{
    let mut i: usize = 0;
    while i < args.len()
        invariant
            i <= args@.len(),
            forall|j: int| 0 <= j < i ==> !has_nul(#[trigger] args@[j]@),
        decreases args@.len() - i,
    {
        let ghost text = args@[i as int]@;
        let arg: &str = args[i].as_str();
        let mut found = false;
        for c in it: arg.chars()
            invariant
                it.seq() == text,
                found <==> exists|k: int| 0 <= k < it.index() && it.seq()[k] == '\0',
        {
            if c == '\0' {
                found = true;
            }
        }
        if found {
            return Err(DpdkError::NulArg);
        }
        i = i + 1;
    }
    Ok(())
}

/// The outcome of EAL initialization: a negative return code is an error.
pub fn eal_init_status(ret: i32) -> (r: Result<(), DpdkError>)
    ensures
        r == if ret < 0 {
            Err(DpdkError::EalInit(ret))
        } else {
            Ok::<(), DpdkError>(())
        },
{
    if ret < 0 {
        Err(DpdkError::EalInit(ret))
    } else {
        Ok(())
    }
}

/// Whether `port_id` can be captured from when `port_count` ports are
/// detected: `NoPorts` when there are none, `PortNotFound` when the port is
/// not among them.
pub fn check_port(port_id: u16, port_count: u16) -> (r: Result<(), DpdkError>)
    ensures
        r == if port_count == 0 {
            Err(DpdkError::NoPorts)
        } else if port_id >= port_count {
            Err(DpdkError::PortNotFound(port_id, port_count))
        } else {
            Ok::<(), DpdkError>(())
        },
{
    if port_count == 0 {
        return Err(DpdkError::NoPorts);
    }
    if port_id >= port_count {
        return Err(DpdkError::PortNotFound(port_id, port_count));
    }
    Ok(())
}

/// The outcome of port initialization: a negative return code is an error.
pub fn port_init_status(ret: i32) -> (r: Result<(), DpdkError>)
    ensures
        r == if ret < 0 {
            Err(DpdkError::PortInit(ret))
        } else {
            Ok::<(), DpdkError>(())
        },
{
    if ret < 0 {
        Err(DpdkError::PortInit(ret))
    } else {
        Ok(())
    }
}

/// How many packets one receive burst asks for: at most `max_batch`, at
/// most the configured burst size.
pub fn burst_for(max_batch: usize, burst_size: u16) -> (n: u16)
    ensures
        n == if max_batch < burst_size { max_batch as u16 } else { burst_size },
{
    if max_batch < burst_size as usize {
        max_batch as u16
    } else {
        burst_size
    }
}

} // verus!
