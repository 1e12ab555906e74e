pub mod identity;
pub mod peer_node;
pub mod reputation;
