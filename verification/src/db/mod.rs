pub mod models;
pub mod order;
pub mod writes;
pub mod queries;
