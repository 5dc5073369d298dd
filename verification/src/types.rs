//! Data model of the durability tier.
//!
//! Requests arrive from the WAL rotation collaborator, are turned into
//! jobs by the scheduler, and yield a [`SegmentMeta`] once the segment is
//! durable. Namespaces are plain strings; timestamps are unix seconds.

use vstd::prelude::*;

use crate::Error;

verus! {

/// What the durability tier observes of a sealed, immutable segment: its
/// closed frame range, its stable identity across tiers, and the exact
/// byte length of its data.
#[derive(Clone, Copy, Debug)]
pub struct SegmentInfo {
    pub segment_id: u128,
    pub start_frame_no: u64,
    pub end_frame_no: u64,
    pub data_len: u64,
}

impl SegmentInfo {
    /// A sealed segment covers a contiguous, closed frame range.
    pub open spec fn wf(&self) -> bool {
        self.start_frame_no <= self.end_frame_no
    }
}

/// A request to make one sealed segment durable. Immutable after
/// submission; consumed exactly once by the scheduler.
#[derive(Debug)]
pub struct StoreSegmentRequest<C> {
    pub namespace: String,
    /// The sealed segment. Read-only for the durability tier.
    pub segment: SegmentInfo,
    /// When the segment was created, in unix seconds.
    pub created_at: i64,
    /// Alternative configuration to use with the storage layer.
    pub storage_config_override: Option<C>,
}

/// Identity of a contiguous, closed frame range that is durable once
/// `store` succeeds for it. Never mutated after creation.
#[derive(Clone, Debug)]
pub struct SegmentMeta {
    pub namespace: String,
    pub segment_id: u128,
    pub start_frame_no: u64,
    pub end_frame_no: u64,
    pub created_at: i64,
}

impl SegmentMeta {
    pub open spec fn wf(&self) -> bool {
        self.start_frame_no <= self.end_frame_no
    }

    /// The metadata under which a request's segment becomes durable.
    pub fn from_request<C>(request: &StoreSegmentRequest<C>) -> (r: SegmentMeta)
        ensures
            r.namespace@ == request.namespace@,
            r.segment_id == request.segment.segment_id,
            r.start_frame_no == request.segment.start_frame_no,
            r.end_frame_no == request.segment.end_frame_no,
            r.created_at == request.created_at,
            request.segment.wf() ==> r.wf(),
    {
        SegmentMeta {
            namespace: request.namespace.clone(),
            segment_id: request.segment.segment_id,
            start_frame_no: request.segment.start_frame_no,
            end_frame_no: request.segment.end_frame_no,
            created_at: request.created_at,
        }
    }
}

/// One unit of scheduled durability work, bound to one request. Owned
/// exclusively by the execution loop for its lifetime.
#[derive(Debug)]
pub struct Job<C> {
    pub request: StoreSegmentRequest<C>,
    /// How many times this job has already run and failed.
    pub attempt: u64,
}

impl<C> Job<C> {
    /// The storage configuration the job runs under: the request's
    /// override where one was supplied, the storage default otherwise.
    pub fn effective_config<'a>(&'a self, default_config: &'a C) -> (r: &'a C)
        ensures
            match self.request.storage_config_override {
                Some(c) => *r == c,
                None => *r == *default_config,
            },
    {
        match &self.request.storage_config_override {
            Some(c) => c,
            None => default_config,
        }
    }
}

/// The outcome of one job execution, handed back to the scheduler.
#[derive(Debug)]
pub struct JobResult<C> {
    /// The job this is the outcome of.
    pub job: Job<C>,
    /// Success carries the metadata made durable; failure the typed fault.
    pub result: core::result::Result<SegmentMeta, Error>,
}

/// Per-namespace durability summary, derived on demand; a read-only
/// snapshot, never cached authoritatively.
#[derive(Clone, Copy, Debug, PartialEq, Eq, Structural)]
pub struct DbMeta {
    /// Highest frame number known durable for the namespace; zero when
    /// nothing is durable yet.
    pub latest_durable_frame_no: u64,
}

} // verus!
