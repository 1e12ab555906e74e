pub mod errors;
pub mod signing;
pub mod types;
