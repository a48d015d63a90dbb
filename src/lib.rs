//! Batch-dispatch engine for replaying line-delimited records to a remote
//! receiver: batch-size resolution, command-line interpretation, batching,
//! framing and the per-run dispatch state.

pub mod text;
pub mod config;
pub mod frame;
pub mod batching;
pub mod dispatch;
pub mod cli;
