pub mod ble_transport;
pub mod connection;
pub mod errors;
pub mod manager;
pub mod reassembly;
pub mod unified;
