//! Scheduling core of a documentation build pipeline.
//!
//! The library tracks build jobs for package releases in a priority queue,
//! hands the next job to a caller-supplied build callback, counts attempts,
//! retires jobs that exhaust their retry budget, ingests registry change
//! events, and exposes a durable pause switch together with a resumable
//! position cursor into the upstream change stream.

pub mod config;
pub mod index_ref;
pub mod queue;
pub mod retry;
pub mod changes;
pub mod laws;

pub use config::ConfigStore;
pub use index_ref::IndexReference;
pub use queue::{BuildQueue, CrateView, PackageKind, QueueError, QueueView, QueuedCrate};
pub use changes::{Change, Release};
