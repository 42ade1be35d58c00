//! Core logic of a live-stream recorder: validated identifiers and stream
//! URLs, case-insensitive deduplication of requested models, parsing and
//! selection of quality variants from a streaming manifest, the retry policy
//! for transient HTTP failures, and the per-job decisions of the bounded
//! worker pool (cancellation, output-size validation, failure aggregation).
//!
//! Everything here is pure computation with verified contracts; the
//! surrounding process (HTTP requests, the recording process, the console)
//! feeds plain values in and carries the decisions out.

pub mod calidades;
pub mod dedup;
pub mod errors;
pub mod grabacion;
pub mod manifest;
pub mod model_name;
pub mod politica;
pub mod pool;
pub mod select;
pub mod stream_url;
pub mod texto;

pub use errors::DomainError;
pub use errors::InfrastructureError;
pub use model_name::ModelName;
pub use stream_url::StreamUrl;
