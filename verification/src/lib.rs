//! A news-feed server library: the rows of its database, the queries that
//! read and change them, the ordering and paging of feeds, and the
//! authentication and request handling around them.
pub mod db;
pub mod server;
pub mod laws;
