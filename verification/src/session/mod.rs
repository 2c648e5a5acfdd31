//! Agent session preferences and the pool of warm agent connections.
pub mod config;
pub mod handlers;
pub mod pool;
