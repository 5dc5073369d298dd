use bottomless::exec_loop::{BottomlessLoop, LoopEvent, StepOutcome};
use bottomless::types::{Job, JobResult, SegmentInfo, SegmentMeta, StoreSegmentRequest};
use bottomless::BottomlessConfig;

fn request(ns: &str, start: u64, end: u64) -> StoreSegmentRequest<()> {
    StoreSegmentRequest {
        namespace: String::from(ns),
        segment: SegmentInfo {
            segment_id: 1,
            start_frame_no: start,
            end_frame_no: end,
            data_len: 512,
        },
        created_at: 0,
        storage_config_override: None,
    }
}

fn fresh_loop(max_in_flight: usize) -> BottomlessLoop<()> {
    BottomlessLoop::new(BottomlessConfig {
        max_jobs_conccurency: max_in_flight,
        max_enqueued_jobs: 16,
        config: (),
    })
}

fn finish(job: Job<()>) -> LoopEvent<()> {
    let meta = SegmentMeta::from_request(&job.request);
    LoopEvent::JobFinished(JobResult {
        job,
        result: Ok(meta),
    })
}

#[test]
fn dispatch_respects_concurrency_cap() {
    let mut l = fresh_loop(3);
    // Submit more requests than the cap allows to run at once.
    for i in 0..10u64 {
        let r = l.step(LoopEvent::Request(request("ns", i * 10, i * 10 + 9)));
        assert!(matches!(r, StepOutcome::Continue));
    }

    let first = l.dispatch();
    assert_eq!(first.len(), 3, "no more than the cap may start");
    // With the cap saturated, nothing further starts.
    assert_eq!(l.dispatch().len(), 0);

    // Finishing one job frees exactly one slot.
    let mut iter = first.into_iter();
    let done = iter.next().unwrap();
    assert!(matches!(l.step(finish(done)), StepOutcome::Durable { .. }));
    assert_eq!(l.dispatch().len(), 1);
}

#[test]
fn dispatched_jobs_come_out_in_submission_order() {
    let mut l = fresh_loop(8);
    for i in 0..4u64 {
        l.step(LoopEvent::Request(request("ns", i, i)));
    }
    let jobs = l.dispatch();
    let starts: Vec<u64> = jobs
        .iter()
        .map(|j| j.request.segment.start_frame_no)
        .collect();
    assert_eq!(starts, vec![0, 1, 2, 3]);
}

#[test]
fn graceful_drain_processes_every_queued_request() {
    let mut l = fresh_loop(2);
    let n = 7u64;
    for i in 0..n {
        l.step(LoopEvent::Request(request("ns", i * 10, i * 10 + 9)));
    }
    // The request source closes with all n requests still queued.
    assert!(matches!(
        l.step(LoopEvent::SourceClosed),
        StepOutcome::Continue
    ));
    assert!(!l.should_exit());

    // Drive the loop as the host would: dispatch, complete, repeat.
    let mut processed = 0u64;
    while !l.should_exit() {
        let jobs = l.dispatch();
        assert!(jobs.len() <= 2);
        for job in jobs {
            match l.step(finish(job)) {
                StepOutcome::Durable { .. } => processed += 1,
                _ => panic!("drain lost a job"),
            }
        }
    }
    assert_eq!(processed, n, "every queued request was processed");
}

#[test]
fn forced_shutdown_exits_immediately() {
    let mut l = fresh_loop(2);
    for i in 0..5u64 {
        l.step(LoopEvent::Request(request("ns", i, i)));
    }
    let started = l.dispatch();
    assert!(!started.is_empty());
    // However much work is queued or in flight, the signal exits at once.
    assert!(matches!(
        l.step(LoopEvent::ForceShutdown),
        StepOutcome::Exit
    ));
}

#[test]
fn job_crash_is_fatal() {
    let mut l = fresh_loop(1);
    l.step(LoopEvent::Request(request("ns", 0, 1)));
    let _running = l.dispatch();
    assert!(matches!(l.step(LoopEvent::JobCrashed), StepOutcome::Fatal));
}

#[test]
fn durable_notifications_carry_the_watermark() {
    let mut l = fresh_loop(4);
    l.step(LoopEvent::Request(request("ns", 0, 64)));
    let jobs = l.dispatch();
    let mut iter = jobs.into_iter();
    match l.step(finish(iter.next().unwrap())) {
        StepOutcome::Durable {
            namespace,
            frame_no,
        } => {
            assert_eq!(namespace, "ns");
            assert_eq!(frame_no, 64);
        }
        _ => panic!("expected a durability notification"),
    }
}
