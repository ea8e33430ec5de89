//! Fixed-lane QUIC transport for streaming worker responses.
//!
//! A worker keeps a bundle of connections to a frontend and spreads a fixed set
//! of lanes over it. The frames of a response are assigned to a lane once,
//! queued, and written in batches by the lane's only writer.

pub mod batch;
pub mod big_endian;
pub mod client;
pub mod config;
pub mod connection;
pub mod deferred;
pub mod delivery;
pub mod fingerprint;
pub mod frame;
pub mod id_map;
pub mod lane;
pub mod response_order;
pub mod response_slot;
pub mod sender;
pub mod server;
pub mod server_state;
