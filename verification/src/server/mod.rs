pub mod auth;
pub mod handlers;
