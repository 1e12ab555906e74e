pub mod records;
