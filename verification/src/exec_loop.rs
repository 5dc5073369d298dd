//! The background execution loop, as a state machine.
//!
//! The loop task is the sole owner of the scheduler. Each iteration it
//! dispatches as much runnable work as the concurrency cap allows, then
//! waits for exactly one event — a job completion, a new request (only
//! while running), or the forced-shutdown signal — and folds that event
//! into the state. The loop may only stop in two ways: gracefully, once
//! the request source is closed and the scheduler is empty, or through the
//! forced-shutdown escape hatch, which abandons outstanding work. The
//! unverified task that hosts the loop performs the waiting and the
//! spawning; every state change goes through [`BottomlessLoop::step`] and
//! [`BottomlessLoop::dispatch`].

use vstd::prelude::*;

use crate::scheduler::{ReportOutcome, Scheduler};
use crate::types::{Job, JobResult, StoreSegmentRequest};
use crate::{BottomlessConfig, Error};

verus! {

/// One of the events the loop can wake up on, in its priority order.
pub enum LoopEvent<C> {
    /// A spawned job returned its result.
    JobFinished(JobResult<C>),
    /// A spawned job terminated abnormally, without a result.
    JobCrashed,
    /// A new request arrived (only delivered while not shutting down).
    Request(StoreSegmentRequest<C>),
    /// The request source closed: no further request will ever arrive.
    SourceClosed,
    /// The forced-shutdown signal fired.
    ForceShutdown,
}

/// What the host task must do after a step.
pub enum StepOutcome {
    /// Keep looping.
    Continue,
    /// Keep looping, and notify durability observers that `namespace` is
    /// now durable up to `frame_no`.
    Durable { namespace: String, frame_no: u64 },
    /// Keep looping, and surface a job failure that is out of retries.
    Escalated(Error),
    /// Leave the loop, abandoning whatever is still queued or in flight.
    Exit,
    /// A job crashed: scheduler and storage state can no longer be
    /// trusted. The host decides the exit policy; the loop state must not
    /// be driven further.
    Fatal,
}

/// The loop's entire mutable state: the scheduler it owns, the concurrency
/// cap, and whether the request source has closed.
pub struct BottomlessLoop<C> {
    pub scheduler: Scheduler<C>,
    /// Hard upper bound on simultaneously executing jobs.
    pub max_in_flight: usize,
    /// Bound on enqueued requests; enforced by the host's request channel.
    pub max_enqueued: usize,
    /// Storage configuration used by jobs without an override.
    pub default_config: C,
    /// Set once the request source closes; never unset.
    pub shutting_down: bool,
}

impl<C> BottomlessLoop<C> {
    /// The loop never lets more jobs run than the cap allows.
    pub open spec fn inv(&self) -> bool {
        &&& self.scheduler.inv()
        &&& self.scheduler.outstanding() <= self.max_in_flight
    }

    /// The graceful termination condition: the source is closed and no
    /// work remains anywhere.
    pub open spec fn spec_should_exit(&self) -> bool {
        self.shutting_down && self.scheduler.queue().len() == 0 && self.scheduler.outstanding()
            == 0
    }

    /// A fresh loop around an empty scheduler.
    pub fn new(config: BottomlessConfig<C>) -> (r: Self)
        ensures
            r.inv(),
            r.scheduler.queue().len() == 0,
            r.scheduler.outstanding() == 0,
            r.scheduler.marks().len() == 0,
            !r.shutting_down,
            r.max_in_flight == config.max_jobs_conccurency,
            r.max_enqueued == config.max_enqueued_jobs,
            r.default_config == config.config,
    {
        BottomlessLoop {
            scheduler: Scheduler::new(),
            max_in_flight: config.max_jobs_conccurency,
            max_enqueued: config.max_enqueued_jobs,
            default_config: config.config,
            shutting_down: false,
        }
    }

    /// Whether the loop must now terminate gracefully: checked at the top
    /// of every iteration.
    pub fn should_exit(&self) -> (r: bool)
        ensures
            r == self.spec_should_exit(),
    {
        self.shutting_down && self.scheduler.is_empty()
    }

    /// Pulls runnable jobs until the scheduler runs dry or the concurrency
    /// cap is reached, whichever comes first. The jobs come out in queue
    /// order, oldest first; the cap is never exceeded.
    pub fn dispatch(&mut self) -> (jobs: Vec<Job<C>>)
        requires
            old(self).inv(),
        ensures
            final(self).inv(),
            final(self).scheduler.outstanding() <= final(self).max_in_flight,
            final(self).max_in_flight == old(self).max_in_flight,
            final(self).max_enqueued == old(self).max_enqueued,
            final(self).default_config == old(self).default_config,
            final(self).shutting_down == old(self).shutting_down,
            final(self).scheduler.marks() == old(self).scheduler.marks(),
            jobs@.len() == if old(self).scheduler.queue().len() + old(self).scheduler.outstanding()
                <= old(self).max_in_flight {
                old(self).scheduler.queue().len() as int
            } else {
                old(self).max_in_flight - old(self).scheduler.outstanding()
            },
            jobs@ == old(self).scheduler.queue().take(jobs@.len() as int),
            final(self).scheduler.queue() == old(self).scheduler.queue().skip(
                jobs@.len() as int,
            ),
            final(self).scheduler.outstanding() == old(self).scheduler.outstanding()
                + jobs@.len(),
    {
        let ghost q0 = self.scheduler.queue();
        let ghost o0 = self.scheduler.outstanding();
        let mut jobs: Vec<Job<C>> = Vec::new();
        while self.scheduler.has_work() && self.scheduler.in_flight < self.max_in_flight
            invariant
                self.scheduler.inv(),
                old(self).scheduler.queue() == q0,
                old(self).scheduler.outstanding() == o0,
                old(self).scheduler.marks() == self.scheduler.marks(),
                old(self).max_in_flight == self.max_in_flight,
                old(self).max_enqueued == self.max_enqueued,
                old(self).default_config == self.default_config,
                old(self).shutting_down == self.shutting_down,
                o0 <= self.scheduler.outstanding() <= self.max_in_flight,
                jobs@.len() == self.scheduler.outstanding() - o0,
                jobs@.len() <= q0.len(),
                jobs@ == q0.take(jobs@.len() as int),
                self.scheduler.queue() == q0.skip(jobs@.len() as int),
            decreases self.scheduler.queue().len(),
        {
            let ghost qi = self.scheduler.queue();
            let ghost k = jobs@.len() as int;
            let job = match self.scheduler.schedule() {
                Some(job) => job,
                None => {
                    // unreachable: the scheduler just reported work
                    proof {
                        assert(false);
                    }
                    return jobs;
                },
            };
            jobs.push(job);
            proof {
                assert(qi == q0.skip(k));
                assert(0 <= k <= q0.len());
                assert(q0.skip(k).len() == q0.len() - k);
                assert(qi.len() > 0);
                assert(k < q0.len());
                assert(q0.skip(k)[0] == q0[0 + k]);
                assert forall|i: int| 0 <= i < k + 1 implies jobs@[i] == q0.take(k + 1)[i] by {
                    assert(q0.take(k + 1)[i] == q0[i]);
                    if i < k {
                        assert(jobs@[i] == q0.take(k)[i]);
                        assert(q0.take(k)[i] == q0[i]);
                    } else {
                        assert(jobs@[i] == q0[0 + k]);
                    }
                }
                assert(jobs@ =~= q0.take(k + 1));
                assert forall|i: int| 0 <= i < q0.len() - k - 1 implies self.scheduler.queue()[i]
                    == q0.skip(k + 1)[i] by {
                    assert(self.scheduler.queue()[i] == q0.skip(k).skip(1)[i]);
                    assert(q0.skip(k).skip(1)[i] == q0.skip(k)[i + 1]);
                    assert(q0.skip(k)[i + 1] == q0[i + 1 + k]);
                    assert(q0.skip(k + 1)[i] == q0[i + (k + 1)]);
                }
                assert(self.scheduler.queue() =~= q0.skip(k + 1));
            }
        }
        jobs
    }

    /// Folds one event into the state.
    ///
    /// A finished job is reported to the scheduler, advancing durability;
    /// a crashed job poisons the whole process (fail-fast); a new request
    /// is registered; a closed source starts the graceful drain; the
    /// forced-shutdown signal exits immediately, abandoning all work.
    pub fn step(&mut self, event: LoopEvent<C>) -> (r: StepOutcome)
        requires
            old(self).inv(),
            event matches LoopEvent::JobFinished(_) ==> old(self).scheduler.outstanding() > 0,
            event is Request ==> !old(self).shutting_down,
        ensures
            final(self).inv(),
            final(self).max_in_flight == old(self).max_in_flight,
            final(self).max_enqueued == old(self).max_enqueued,
            final(self).default_config == old(self).default_config,
            forall|ns: Seq<char>|
                final(self).scheduler.watermark_of(ns) >= #[trigger] old(self).scheduler.watermark_of(ns),
            match event {
                LoopEvent::JobFinished(jr) => {
                    &&& final(self).shutting_down == old(self).shutting_down
                    &&& final(self).scheduler.outstanding() == old(self).scheduler.outstanding()
                        - 1
                    &&& match jr.result {
                        Ok(meta) => {
                            &&& final(self).scheduler.queue() == old(self).scheduler.queue()
                            &&& final(self).scheduler.watermark_of(meta.namespace@) == if old(self).scheduler.watermark_of(meta.namespace@) >= meta.end_frame_no {
                                old(self).scheduler.watermark_of(meta.namespace@)
                            } else {
                                meta.end_frame_no
                            }
                            &&& r matches StepOutcome::Durable { namespace, frame_no }
                                && namespace@ == meta.namespace@ && frame_no == final(self).scheduler.watermark_of(meta.namespace@)
                        },
                        Err(e) => {
                            &&& final(self).scheduler.marks() == old(self).scheduler.marks()
                            &&& if jr.job.attempt + 1 < crate::scheduler::MAX_JOB_ATTEMPTS {
                                final(self).scheduler.queue() == old(self).scheduler.queue().push(
                                    Job { request: jr.job.request, attempt: (jr.job.attempt + 1) as u64 },
                                ) && (r is Continue)
                            } else {
                                final(self).scheduler.queue() == old(self).scheduler.queue() && (r
                                matches StepOutcome::Escalated(f) && f == e)
                            }
                        },
                    }
                },
                LoopEvent::JobCrashed => r is Fatal && *final(self) == *old(self),
                LoopEvent::Request(req) => {
                    &&& r is Continue
                    &&& final(self).shutting_down == old(self).shutting_down
                    &&& final(self).scheduler.queue() == old(self).scheduler.queue().push(
                        Job { request: req, attempt: 0 },
                    )
                    &&& final(self).scheduler.outstanding() == old(self).scheduler.outstanding()
                    &&& final(self).scheduler.marks() == old(self).scheduler.marks()
                },
                LoopEvent::SourceClosed => {
                    &&& r is Continue
                    &&& final(self).shutting_down
                    &&& final(self).scheduler == old(self).scheduler
                },
                LoopEvent::ForceShutdown => r is Exit && *final(self) == *old(self),
            },
    {
        match event {
            LoopEvent::JobFinished(job_result) => {
                match self.scheduler.report(job_result) {
                    ReportOutcome::Advanced { namespace, frame_no } => StepOutcome::Durable {
                        namespace,
                        frame_no,
                    },
                    ReportOutcome::Retried => StepOutcome::Continue,
                    ReportOutcome::Escalated(e) => StepOutcome::Escalated(e),
                }
            },
            LoopEvent::JobCrashed => StepOutcome::Fatal,
            LoopEvent::Request(request) => {
                self.scheduler.register(request);
                StepOutcome::Continue
            },
            LoopEvent::SourceClosed => {
                self.shutting_down = true;
                StepOutcome::Continue
            },
            LoopEvent::ForceShutdown => StepOutcome::Exit,
        }
    }
}

/// Graceful drain: whenever the loop's graceful termination condition
/// holds, the scheduler has no queued and no outstanding work left — the
/// loop never stops on its own with a registered request unprocessed.
pub proof fn lemma_graceful_exit_is_drained<C>(state: BottomlessLoop<C>)
    ensures
        state.spec_should_exit() ==> state.scheduler.queue().len() == 0
            && state.scheduler.outstanding() == 0,
{
}

} // verus!
