//! Mirrors a hierarchical document service into object storage as Markdown
//! documents plus referenced binary blobs.
//!
//! The crate holds the synchronization engine: the block tree fetcher, the
//! Markdown renderer, the job queue codec and model, the webhook decision
//! logic, and the worker's planning rules. I/O (HTTP, object storage, the
//! broker connection) lives outside the library and hands plain values in.

pub mod config;
pub mod fetch;
pub mod json;
pub mod notion;
pub mod props;
pub mod queue;
pub mod render;
pub mod strings;
pub mod webhook;
pub mod worker;
