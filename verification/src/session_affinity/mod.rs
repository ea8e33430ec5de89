//! Keeps the requests of a session on the same worker, across routers.

pub mod coordinator;
pub mod entries;
pub mod lifecycle;
pub mod state;
