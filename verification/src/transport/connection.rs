use vstd::prelude::*;

use crate::transport::errors::TransportError;

verus! {

/// Lifecycle of a link to one peer.
#[derive(Debug, Clone, Copy, PartialEq, Eq, Structural)]
pub enum ConnectionState {
    Disconnected,
    Connecting,
    Connected,
    Disconnecting,
    Failed(TransportError),
}

/// The physical transport a link runs over.
#[derive(Debug, Clone, Copy, PartialEq, Eq, Structural)]
pub enum TransportType {
    Ble,
    WifiDirect,
}

} // verus!
