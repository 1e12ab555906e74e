pub mod graph;
pub mod health;
pub mod hop_counter;
