//! TCP callback transport for streaming frontend-to-worker requests.
//!
//! The frontend registers a subject, the worker dials the advertised listener,
//! and the frontend pushes request frames down that socket.

pub mod client;
pub mod info;
pub mod server;
pub mod subjects;
