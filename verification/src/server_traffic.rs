use vstd::prelude::*;

use crate::mock::{
    frames, normal_echo, normal_tcp, normal_udp, push_if, push_normal_echo, push_normal_tcp,
    push_normal_udp, syn_burst, udp_burst,
};

verus! {

/// The batch of the API server's built-in traffic generator at tick
/// `cycle`: normal TCP, UDP and ICMP traffic, a SYN flood from 10.0.0.50
/// during the first 100 ticks of every 200, and a UDP flood from 10.0.0.22
/// during the first 50 ticks of every 500.
pub open spec fn server_batch(cycle: u64) -> Seq<Seq<u8>> {
    normal_tcp(cycle) + normal_udp(cycle) + normal_echo()
        + (if cycle % 200 < 100 { syn_burst([10u8, 0u8, 0u8, 50u8]) } else { Seq::empty() })
        + (if cycle % 500 < 50 { udp_burst([10u8, 0u8, 0u8, 22u8]) } else { Seq::empty() })
}

/// Generate the batch of raw Ethernet frames simulating mixed traffic at
/// tick `cycle`.
pub fn generate_batch(cycle: u64) -> (batch: Vec<Vec<u8>>)
    ensures
        frames(batch@) == server_batch(cycle),
{
    let mut batch: Vec<Vec<u8>> = Vec::with_capacity(20);
    assert(frames(batch@) =~= Seq::<Seq<u8>>::empty());
    push_normal_tcp(&mut batch, cycle);
    push_normal_udp(&mut batch, cycle);
    push_normal_echo(&mut batch);
    // Attack traffic for the first half of every 200 ticks.
    push_if(&mut batch, cycle % 200 < 100, [10, 0, 0, 50], 0);
    // Occasional UDP flood.
    push_if(&mut batch, cycle % 500 < 50, [10, 0, 0, 22], 1);
    batch
}

} // verus!
