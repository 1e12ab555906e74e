pub mod bytes;
pub mod clock;
pub mod crypto;
pub mod discovery;
pub mod gossip;
pub mod message;
pub mod peer;
pub mod persistence;
pub mod router;
pub mod topology;
pub mod transport;
