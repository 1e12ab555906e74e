pub mod ble;
pub mod events;
pub mod peer_list;
