pub mod records;
pub mod sources;
