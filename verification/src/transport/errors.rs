use vstd::prelude::*;

verus! {

/// Ways a transport operation can fail.
#[derive(Debug, Clone, Copy, PartialEq, Eq, Structural)]
pub enum TransportError {
    NotConnected,
    ConnectionRefused,
    Timeout,
    BrokenPipe,
    PayloadTooLarge,
}

} // verus!
