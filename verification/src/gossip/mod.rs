pub mod bloom;
pub mod protocol;
pub mod round;
