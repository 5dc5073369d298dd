//! The durability scheduler.
//!
//! Owns the set of pending durability work and the per-namespace durable
//! watermark. Requests are queued in submission order and scheduled FIFO,
//! which preserves the WAL's monotonic frame ordering within a namespace.
//! A completed job is reported back: success advances the namespace's
//! watermark, monotonically and never past what was actually stored; a
//! typed failure is retried a bounded number of times and then escalated,
//! never silently dropped.

use vstd::prelude::*;

use crate::types::{Job, JobResult, SegmentMeta, StoreSegmentRequest};
use crate::Error;

verus! {

/// How many times a job may run before its failure is escalated.
pub const MAX_JOB_ATTEMPTS: u64 = 3;

/// One namespace's durable watermark: the highest frame number reported
/// durable for it so far.
pub struct Watermark {
    pub namespace: String,
    pub frame_no: u64,
}

/// There is a watermark entry for `ns`.
pub open spec fn wm_has(s: Seq<Watermark>, ns: Seq<char>) -> bool {
    exists|i: int| 0 <= i < s.len() && s[i].namespace@ == ns
}

/// The index of the watermark entry for `ns` (well defined under
/// [`wm_inv`]).
pub open spec fn wm_idx(s: Seq<Watermark>, ns: Seq<char>) -> int {
    choose|i: int| 0 <= i < s.len() && s[i].namespace@ == ns
}

/// The durable watermark recorded for `ns`; zero when nothing has been
/// reported durable for it yet.
pub open spec fn wm_of(s: Seq<Watermark>, ns: Seq<char>) -> u64 {
    if wm_has(s, ns) {
        s[wm_idx(s, ns)].frame_no
    } else {
        0
    }
}

/// Watermark entries are keyed uniquely by namespace.
pub open spec fn wm_inv(s: Seq<Watermark>) -> bool {
    forall|i: int, j: int|
        0 <= i < j < s.len() ==> (#[trigger] s[i]).namespace@ != (#[trigger] s[j]).namespace@
}

/// Under uniqueness, an entry with the right namespace is the entry the
/// lookup yields.
pub proof fn lemma_wm_at(s: Seq<Watermark>, i: int)
    requires
        wm_inv(s),
        0 <= i < s.len(),
    ensures
        wm_has(s, s[i].namespace@),
        wm_idx(s, s[i].namespace@) == i,
        wm_of(s, s[i].namespace@) == s[i].frame_no,
{
    let ns = s[i].namespace@;
    assert(wm_has(s, ns));
    let j = wm_idx(s, ns);
    if j < i {
        assert(s[j].namespace@ != s[i].namespace@);
    } else if j > i {
        assert(s[i].namespace@ != s[j].namespace@);
    }
}

/// What the scheduler tells the loop after a job's outcome is reported.
#[derive(Debug)]
pub enum ReportOutcome {
    /// The job succeeded; the namespace's watermark now stands at
    /// `frame_no`. To be forwarded to durability observers.
    Advanced { namespace: String, frame_no: u64 },
    /// The job failed and was queued to run again.
    Retried,
    /// The job failed its last permitted attempt; the fault is handed to
    /// the caller rather than dropped.
    Escalated(Error),
}

/// Tracks pending store requests, hands them out as jobs in FIFO order,
/// and folds completed jobs back into the durability bookkeeping.
pub struct Scheduler<C> {
    /// Registered work, oldest first, not yet handed out.
    pub pending: Vec<Job<C>>,
    /// Jobs handed out by `schedule` and not yet reported back.
    pub in_flight: usize,
    /// Per-namespace durable watermarks.
    pub watermarks: Vec<Watermark>,
}

impl<C> Scheduler<C> {
    /// The queue of not-yet-scheduled jobs, oldest first.
    pub open spec fn queue(&self) -> Seq<Job<C>> {
        self.pending@
    }

    /// How many scheduled jobs have not reported back yet.
    pub open spec fn outstanding(&self) -> nat {
        self.in_flight as nat
    }

    /// The recorded watermark entries.
    pub open spec fn marks(&self) -> Seq<Watermark> {
        self.watermarks@
    }

    /// The durable watermark for one namespace.
    pub open spec fn watermark_of(&self, ns: Seq<char>) -> u64 {
        wm_of(self.watermarks@, ns)
    }

    pub open spec fn inv(&self) -> bool {
        wm_inv(self.watermarks@)
    }

    /// A scheduler with no work and no recorded watermarks.
    pub fn new() -> (r: Self)
        ensures
            r.inv(),
            r.queue() =~= Seq::<Job<C>>::empty(),
            r.outstanding() == 0,
            r.marks() =~= Seq::<Watermark>::empty(),
    {
        Scheduler { pending: Vec::new(), in_flight: 0, watermarks: Vec::new() }
    }

    /// Enqueues a new request. It enters the back of the queue with a
    /// fresh attempt count; nothing else moves.
    pub fn register(&mut self, request: StoreSegmentRequest<C>)
        ensures
            final(self).queue() == old(self).queue().push(Job { request, attempt: 0 }),
            final(self).outstanding() == old(self).outstanding(),
            final(self).marks() == old(self).marks(),
            final(self).inv() == old(self).inv(),
    {
        self.pending.push(Job { request, attempt: 0 });
    }

    /// Whether at least one job is ready to run.
    pub fn has_work(&self) -> (r: bool)
        ensures
            r == (self.queue().len() > 0),
    {
        self.pending.len() > 0
    }

    /// Removes and returns the next runnable job: the oldest one. Returns
    /// nothing exactly when the queue is empty.
    pub fn schedule(&mut self) -> (r: Option<Job<C>>)
        requires
            old(self).outstanding() < usize::MAX,
        ensures
            final(self).marks() == old(self).marks(),
            final(self).inv() == old(self).inv(),
            match r {
                Some(job) => {
                    &&& old(self).queue().len() > 0
                    &&& job == old(self).queue()[0]
                    &&& final(self).queue() == old(self).queue().skip(1)
                    &&& final(self).outstanding() == old(self).outstanding() + 1
                },
                None => old(self).queue().len() == 0 && *final(self) == *old(self),
            },
    {
        if self.pending.len() == 0 {
            return None;
        }
        let ghost q0 = self.pending@;
        let job = self.pending.remove(0);
        self.in_flight = self.in_flight + 1;
        assert(self.pending@ =~= q0.skip(1));
        Some(job)
    }

    /// No pending and no outstanding work: the graceful-shutdown
    /// termination condition.
    pub fn is_empty(&self) -> (r: bool)
        ensures
            r == (self.queue().len() == 0 && self.outstanding() == 0),
    {
        self.pending.len() == 0 && self.in_flight == 0
    }

    /// Folds a completed job's outcome back in. Success advances the
    /// namespace's watermark to the stored segment's last frame, never
    /// backwards; a failure goes back to the end of the queue until its
    /// attempts are spent, and is then escalated. Watermarks of other
    /// namespaces never move.
    pub fn report(&mut self, job_result: JobResult<C>) -> (r: ReportOutcome)
        requires
            old(self).inv(),
            old(self).outstanding() > 0,
        ensures
            final(self).inv(),
            final(self).outstanding() == old(self).outstanding() - 1,
            forall|ns: Seq<char>|
                final(self).watermark_of(ns) >= #[trigger] old(self).watermark_of(ns),
            match job_result.result {
                Ok(meta) => {
                    &&& final(self).queue() == old(self).queue()
                    &&& final(self).watermark_of(meta.namespace@) == if old(self).watermark_of(
                        meta.namespace@,
                    ) >= meta.end_frame_no {
                        old(self).watermark_of(meta.namespace@)
                    } else {
                        meta.end_frame_no
                    }
                    &&& forall|ns: Seq<char>|
                        ns != meta.namespace@ ==> final(self).watermark_of(ns)
                            == #[trigger] old(self).watermark_of(ns)
                    &&& r matches ReportOutcome::Advanced { namespace, frame_no }
                        && namespace@ == meta.namespace@ && frame_no == final(self).watermark_of(
                        meta.namespace@,
                    )
                },
                Err(e) => {
                    &&& final(self).marks() == old(self).marks()
                    &&& if job_result.job.attempt + 1 < MAX_JOB_ATTEMPTS {
                        final(self).queue() == old(self).queue().push(
                            Job {
                                request: job_result.job.request,
                                attempt: (job_result.job.attempt + 1) as u64,
                            },
                        ) && (r is Retried)
                    } else {
                        final(self).queue() == old(self).queue() && (r matches
                        ReportOutcome::Escalated(f) && f == e)
                    }
                },
            },
    {
        self.in_flight = self.in_flight - 1;
        match job_result.result {
            Ok(meta) => {
                let namespace = meta.namespace.clone();
                let frame_no = advance_watermark(
                    &mut self.watermarks,
                    meta.namespace,
                    meta.end_frame_no,
                );
                ReportOutcome::Advanced { namespace, frame_no }
            },
            Err(e) => {
                if job_result.job.attempt < MAX_JOB_ATTEMPTS - 1 {
                    let attempt = job_result.job.attempt + 1;
                    self.pending.push(Job { request: job_result.job.request, attempt });
                    ReportOutcome::Retried
                } else {
                    ReportOutcome::Escalated(e)
                }
            },
        }
    }

    /// The durability summary for one namespace, derived from the
    /// watermark bookkeeping.
    pub fn durable_frame_no(&self, namespace: &String) -> (r: u64)
        requires
            self.inv(),
        ensures
            r == self.watermark_of(namespace@),
    {
        watermark_lookup(&self.watermarks, namespace)
    }
}

/// Looks up the recorded watermark for `namespace`, zero when absent.
fn watermark_lookup(watermarks: &Vec<Watermark>, namespace: &String) -> (r: u64)
    requires
        wm_inv(watermarks@),
    ensures
        r == wm_of(watermarks@, namespace@),
{
    let n = watermarks.len();
    let mut i: usize = 0;
    while i < n
        invariant
            n == watermarks@.len(),
            wm_inv(watermarks@),
            i <= n,
            forall|j: int| 0 <= j < i ==> (#[trigger] watermarks@[j]).namespace@ != namespace@,
        decreases n - i,
    {
        if watermarks[i].namespace == *namespace {
            proof {
                lemma_wm_at(watermarks@, i as int);
            }
            return watermarks[i].frame_no;
        }
        i += 1;
    }
    proof {
        if wm_has(watermarks@, namespace@) {
            let w = wm_idx(watermarks@, namespace@);
            assert(watermarks@[w].namespace@ != namespace@);
        }
    }
    0
}

/// Raises the watermark of `namespace` to `frame_no` unless it already
/// stands higher; returns the resulting watermark. Entries of other
/// namespaces are untouched.
fn advance_watermark(watermarks: &mut Vec<Watermark>, namespace: String, frame_no: u64) -> (r: u64)
    requires
        wm_inv(old(watermarks)@),
    ensures
        wm_inv(final(watermarks)@),
        r == wm_of(final(watermarks)@, namespace@),
        r == if wm_of(old(watermarks)@, namespace@) >= frame_no {
            wm_of(old(watermarks)@, namespace@)
        } else {
            frame_no
        },
        forall|ns: Seq<char>|
            ns != namespace@ ==> wm_of(final(watermarks)@, ns) == wm_of(old(watermarks)@, ns),
        forall|ns: Seq<char>|
            wm_of(final(watermarks)@, ns) >= #[trigger] wm_of(old(watermarks)@, ns),
{
    let ghost s0 = watermarks@;
    let n = watermarks.len();
    let mut i: usize = 0;
    while i < n
        invariant
            n == watermarks@.len(),
            watermarks@ == s0,
            s0 == old(watermarks)@,
            wm_inv(s0),
            i <= n,
            forall|j: int| 0 <= j < i ==> (#[trigger] s0[j]).namespace@ != namespace@,
        decreases n - i,
    {
        if watermarks[i].namespace == namespace {
            proof {
                assert(s0[i as int].namespace@ == namespace@);
                lemma_wm_at(s0, i as int);
                assert(wm_of(s0, namespace@) == s0[i as int].frame_no);
            }
            let cur = watermarks[i].frame_no;
            let newval = if frame_no > cur {
                frame_no
            } else {
                cur
            };
            watermarks[i] = Watermark { namespace, frame_no: newval };
            proof {
                let s1 = watermarks@;
                assert(s1 == s0.update(i as int, Watermark { namespace, frame_no: newval }));
                assert forall|p: int, q: int| 0 <= p < q < s1.len() implies (
                #[trigger] s1[p]).namespace@ != (#[trigger] s1[q]).namespace@ by {
                    assert(s0[p].namespace@ != s0[q].namespace@);
                }
                lemma_wm_at(s1, i as int);
                assert forall|ns: Seq<char>| ns != namespace@ implies wm_of(s1, ns) == wm_of(
                    s0,
                    ns,
                ) by {
                    lemma_wm_frame(s0, s1, i as int, ns);
                }
            }
            return newval;
        }
        i += 1;
    }
    proof {
        if wm_has(s0, namespace@) {
            let w = wm_idx(s0, namespace@);
            assert(s0[w].namespace@ != namespace@);
        }
    }
    watermarks.push(Watermark { namespace, frame_no });
    proof {
        let s1 = watermarks@;
        assert forall|p: int, q: int| 0 <= p < q < s1.len() implies (#[trigger] s1[p]).namespace@
            != (#[trigger] s1[q]).namespace@ by {
            if q < s0.len() {
                assert(s0[p].namespace@ != s0[q].namespace@);
            } else {
                assert(s0[p].namespace@ != namespace@);
            }
        }
        lemma_wm_at(s1, s0.len() as int);
        assert forall|ns: Seq<char>| ns != namespace@ implies wm_of(s1, ns) == wm_of(s0, ns) by {
            lemma_wm_frame(s0, s1, s0.len() as int, ns);
        }
    }
    frame_no
}

/// Two watermark tables that agree everywhere but at one position, whose
/// entry there carries some other namespace, agree on every other
/// namespace's watermark.
proof fn lemma_wm_frame(s0: Seq<Watermark>, s1: Seq<Watermark>, at: int, ns: Seq<char>)
    requires
        wm_inv(s0),
        s0.len() <= s1.len() <= s0.len() + 1,
        s1.len() == s0.len() || at == s0.len(),
        forall|j: int| 0 <= j < s1.len() && j != at ==> #[trigger] s1[j] == s0[j],
        0 <= at < s1.len(),
        s1[at].namespace@ != ns,
        at < s0.len() ==> s0[at].namespace@ != ns,
    ensures
        wm_of(s1, ns) == wm_of(s0, ns),
{
    if wm_has(s0, ns) {
        let w = wm_idx(s0, ns);
        assert(s1[w] == s0[w]);
        assert(wm_has(s1, ns));
    }
    if wm_has(s1, ns) {
        let w = wm_idx(s1, ns);
        assert(w != at);
        assert(s1[w] == s0[w]);
        assert(wm_has(s0, ns));
        lemma_wm_at(s0, w);
        assert(wm_idx(s0, ns) == w);
    }
}

} // verus!
