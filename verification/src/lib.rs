//! Durability tier for sealed write-ahead-log segments.
//!
//! Sealed, immutable WAL segments are made durable to a tiered store: a
//! local segment cache backed by an optional remote tier. The crate verifies
//! the decision logic of that pipeline: the segment naming scheme and its
//! parser, the fixed-record buffer contract used for zero-copy I/O, the
//! durability scheduler with its per-namespace watermark, the background
//! loop's state machine, and the tiered-storage lookup rules. The
//! surrounding I/O (filesystem, channels, tasks) lives outside the library
//! and consults these functions for every decision.

use vstd::prelude::*;

pub mod buf;
pub mod exec_loop;
pub mod header;
pub mod name;
pub mod scheduler;
pub mod storage;
pub mod types;

verus! {

/// Static configuration of the durability tier.
pub struct BottomlessConfig<C> {
    /// The maximum number of store jobs that can be processed concurrently.
    pub max_jobs_conccurency: usize,
    /// The maximum number of jobs that can be enqueued before throttling.
    pub max_enqueued_jobs: usize,
    /// The storage configuration used when a request carries no override.
    pub config: C,
}

/// Faults surfaced by the durability tier.
///
/// `Io` carries the description of a failed filesystem operation, `Store` a
/// descriptive persistence failure (local write or remote upload),
/// `FrameNotFound` reports that no tier holds a segment covering the
/// requested frame, and `Integrity` reports a malformed segment file name or
/// a header that disagrees with the name it was stored under.
#[derive(Debug)]
pub enum Error {
    Io(String),
    Store(String),
    FrameNotFound(u64),
    Integrity(String),
}

pub type Result<T> = core::result::Result<T, Error>;

} // verus!
