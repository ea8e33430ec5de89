//! Verified decision logic of a distributed inference runtime: the fixed-lane
//! response transport, the request callback transport, session affinity,
//! request statistics, request tracing and the metric-name generator.

pub mod codegen;
pub mod frontend_stats;
pub mod http_headers;
pub mod instances;
pub mod keyed_table;
pub mod metrics;
pub mod network;
pub mod pylon_stats;
pub mod quic;
pub mod request_trace;
pub mod seqs;
pub mod session_affinity;
pub mod stats_reading;
pub mod tcp;
pub mod text;
pub mod text_map;
