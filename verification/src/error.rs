use vstd::prelude::*;

verus! {

#[verifier::external_type_specification]
#[verifier::external_body]
pub struct ExIoError(std::io::Error);

/// Errors raised by the library.
#[derive(Debug)]
pub enum NetShieldError {
    /// A frame could not be parsed; the text says why.
    PacketParse(&'static str),
    /// A configuration value was rejected.
    Config(String),
    /// An I/O operation failed.
    Io { source: std::io::Error },
}

} // verus!
