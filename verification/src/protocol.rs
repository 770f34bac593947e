use vstd::prelude::*;

verus! {

/// Network protocol identified from the IPv4 protocol field.
#[derive(Debug, Clone, Copy, PartialEq, Eq, Hash, Structural)]
pub enum Protocol {
    Tcp,
    Udp,
    Icmp,
    Other,
}

/// The protocol that an IPv4 protocol number denotes.
pub open spec fn protocol_of(proto: u8) -> Protocol {
    if proto == 6 {
        Protocol::Tcp
    } else if proto == 17 {
        Protocol::Udp
    } else if proto == 1 {
        Protocol::Icmp
    } else {
        Protocol::Other
    }
}

impl Protocol {
    /// Map an IPv4 protocol number to a protocol.
    pub fn from_ip_protocol(proto: u8) -> (p: Protocol)
        ensures
            p == protocol_of(proto),
    {
        match proto {
            6 => Protocol::Tcp,
            17 => Protocol::Udp,
            1 => Protocol::Icmp,
            _ => Protocol::Other,
        }
    }

    /// The lower-case name of the protocol.
    pub open spec fn name(self) -> Seq<char> {
        match self {
            Protocol::Tcp => "tcp"@,
            Protocol::Udp => "udp"@,
            Protocol::Icmp => "icmp"@,
            Protocol::Other => "other"@,
        }
    }

    /// The lower-case name of the protocol (`"tcp"`, `"udp"`, `"icmp"`, `"other"`).
    pub fn to_string(&self) -> (s: String)
        ensures
            s@ == self.name(),
    {
        match self {
            Protocol::Tcp => String::from_str("tcp"),
            Protocol::Udp => String::from_str("udp"),
            Protocol::Icmp => String::from_str("icmp"),
            Protocol::Other => String::from_str("other"),
        }
    }
}

} // verus!
