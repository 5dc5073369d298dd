use bottomless::scheduler::{ReportOutcome, Scheduler, MAX_JOB_ATTEMPTS};
use bottomless::types::{Job, JobResult, SegmentInfo, SegmentMeta, StoreSegmentRequest};
use bottomless::Error;

fn request(ns: &str, start: u64, end: u64) -> StoreSegmentRequest<()> {
    StoreSegmentRequest {
        namespace: String::from(ns),
        segment: SegmentInfo {
            segment_id: 7,
            start_frame_no: start,
            end_frame_no: end,
            data_len: 4096,
        },
        created_at: 1715200000,
        storage_config_override: None,
    }
}

fn success(job: Job<()>) -> JobResult<()> {
    let meta = SegmentMeta::from_request(&job.request);
    JobResult {
        job,
        result: Ok(meta),
    }
}

fn failure(job: Job<()>) -> JobResult<()> {
    JobResult {
        job,
        result: Err(Error::Store(String::from("upload refused"))),
    }
}

#[test]
fn scheduler_starts_empty() {
    let s: Scheduler<()> = Scheduler::new();
    assert!(s.is_empty());
    assert!(!s.has_work());
}

#[test]
fn schedule_is_fifo() {
    let mut s: Scheduler<()> = Scheduler::new();
    s.register(request("ns", 0, 10));
    s.register(request("ns", 11, 20));
    s.register(request("ns", 21, 30));
    assert!(s.has_work());
    assert!(!s.is_empty());

    let a = s.schedule().unwrap();
    let b = s.schedule().unwrap();
    let c = s.schedule().unwrap();
    assert_eq!(a.request.segment.start_frame_no, 0);
    assert_eq!(b.request.segment.start_frame_no, 11);
    assert_eq!(c.request.segment.start_frame_no, 21);
    assert!(s.schedule().is_none());

    // Scheduled but unreported jobs still count as outstanding work.
    assert!(!s.has_work());
    assert!(!s.is_empty());
    s.report(success(a));
    s.report(success(b));
    s.report(success(c));
    assert!(s.is_empty());
}

#[test]
fn successful_report_advances_watermark() {
    let mut s: Scheduler<()> = Scheduler::new();
    s.register(request("ns", 0, 64));
    let job = s.schedule().unwrap();
    match s.report(success(job)) {
        ReportOutcome::Advanced {
            namespace,
            frame_no,
        } => {
            assert_eq!(namespace, "ns");
            assert_eq!(frame_no, 64);
        }
        _ => panic!("expected watermark advance"),
    }
    assert_eq!(s.durable_frame_no(&String::from("ns")), 64);
    assert_eq!(s.durable_frame_no(&String::from("other")), 0);
}

#[test]
fn watermark_never_decreases() {
    let mut s: Scheduler<()> = Scheduler::new();
    let mut last = 0;
    // An arbitrary sequence of successful stores, with ranges that end
    // out of order: the observed watermark is non-decreasing throughout.
    for (start, end) in [(0u64, 10u64), (11, 90), (20, 30), (40, 50), (91, 95)] {
        s.register(request("ns", start, end));
        let job = s.schedule().unwrap();
        s.report(success(job));
        let now = s.durable_frame_no(&String::from("ns"));
        assert!(now >= last, "watermark went back: {} then {}", last, now);
        last = now;
    }
    assert_eq!(last, 95);
}

#[test]
fn watermarks_are_per_namespace() {
    let mut s: Scheduler<()> = Scheduler::new();
    s.register(request("alpha", 0, 10));
    s.register(request("beta", 0, 99));
    let a = s.schedule().unwrap();
    let b = s.schedule().unwrap();
    s.report(success(a));
    s.report(success(b));
    assert_eq!(s.durable_frame_no(&String::from("alpha")), 10);
    assert_eq!(s.durable_frame_no(&String::from("beta")), 99);
}

#[test]
fn failed_job_is_requeued_then_escalated() {
    let mut s: Scheduler<()> = Scheduler::new();
    s.register(request("ns", 0, 10));

    let mut attempts = 0;
    loop {
        let job = s.schedule().unwrap();
        assert_eq!(job.attempt, attempts);
        attempts += 1;
        match s.report(failure(job)) {
            ReportOutcome::Retried => {
                assert!(s.has_work(), "a retried job must be queued again");
            }
            ReportOutcome::Escalated(e) => {
                assert!(matches!(e, Error::Store(_)));
                break;
            }
            ReportOutcome::Advanced { .. } => panic!("job never succeeded"),
        }
    }
    assert_eq!(attempts, MAX_JOB_ATTEMPTS);
    // The failure was surfaced, not silently dropped, and nothing lingers.
    assert!(s.is_empty());
    assert_eq!(s.durable_frame_no(&String::from("ns")), 0);
}
