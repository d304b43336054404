//! A Redis server's keyspace, command handling and session decisions.
pub mod store;
pub mod handler;
pub mod session;
