use bottomless::header::SegmentHeader;
use bottomless::name::segment_file_name;
use bottomless::storage::{FetchPlan, FsStorage};
use bottomless::types::SegmentMeta;
use bottomless::Error;

fn meta(ns: &str, start: u64, end: u64, created_at: i64) -> SegmentMeta {
    SegmentMeta {
        namespace: String::from(ns),
        segment_id: 42,
        start_frame_no: start,
        end_frame_no: end,
        created_at,
    }
}

#[test]
fn store_computes_the_segment_path() {
    let mut fs = FsStorage::new(b"/data/wal".to_vec());
    let path = fs.store(&meta("ns", 0, 64, 1715200000));
    let expected = format!(
        "/data/wal/segments/{:019}-{:019}-{:019}.segment",
        0, 64, 1715200000
    );
    assert_eq!(String::from_utf8(path).unwrap(), expected);
    assert_eq!(
        String::from_utf8(fs.segments_dir()).unwrap(),
        "/data/wal/segments"
    );
}

#[test]
fn read_write() {
    // Store a segment whose header says frames 0..=64, then fetch frame 5:
    // the fetch is served from the cache, and the header of the fetched
    // file reports the stored range.
    let mut fs = FsStorage::new(b"root".to_vec());
    let stored_header = SegmentHeader {
        start_frame_no: 0,
        frame_count: 10,
        segment_id: 0,
        end_frame_no: 64,
    };
    let file_bytes = stored_header.to_bytes();
    let path = fs.store(&meta("", 0, 64, 1715200000));

    let plan = fs.fetch_segment(5).unwrap();
    match plan {
        FetchPlan::Local {
            index,
            path: found,
        } => {
            assert_eq!(index, 0);
            assert_eq!(found, path);
        }
        FetchPlan::Remote => panic!("the cache holds a covering segment"),
    }

    // The host hard-links the file into place; both paths reference the
    // same bytes, so the destination starts with the stored header.
    let header = SegmentHeader::from_bytes(&file_bytes);
    assert_eq!(header.start_frame_no, 0);
    assert_eq!(header.end_frame_no, 64);
}

#[test]
fn every_covered_frame_is_served_locally() {
    let mut fs = FsStorage::new(b"root".to_vec());
    fs.store(&meta("ns", 0, 64, 7));
    for frame in 0..=64u64 {
        match fs.fetch_segment(frame).unwrap() {
            FetchPlan::Local { index, .. } => assert_eq!(index, 0),
            FetchPlan::Remote => panic!("frame {} is covered", frame),
        }
    }
    // One frame past the range, no tier holds it locally: the fetch falls
    // through to the remote tier (and fails with frame-not-found if that
    // tier cannot satisfy it either).
    assert!(matches!(fs.fetch_segment(65).unwrap(), FetchPlan::Remote));
}

#[test]
fn first_covering_entry_wins() {
    let mut fs = FsStorage::new(b"root".to_vec());
    fs.store(&meta("ns", 0, 10, 1));
    fs.store(&meta("ns", 5, 20, 2));
    match fs.fetch_segment(7).unwrap() {
        FetchPlan::Local { index, .. } => assert_eq!(index, 0),
        FetchPlan::Remote => panic!("covered"),
    }
    match fs.fetch_segment(15).unwrap() {
        FetchPlan::Local { index, .. } => assert_eq!(index, 1),
        FetchPlan::Remote => panic!("covered"),
    }
}

#[test]
fn malformed_cache_entry_is_an_integrity_fault() {
    let entries = vec![b"not-a#segment*name".to_vec()];
    let fs = FsStorage::from_listing(b"root".to_vec(), entries);
    assert!(matches!(fs.fetch_segment(0), Err(Error::Integrity(_))));
    assert!(matches!(fs.meta(), Err(Error::Integrity(_))));
}

#[test]
fn meta_reports_highest_stored_end_frame() {
    let mut fs = FsStorage::new(b"root".to_vec());
    assert_eq!(fs.meta().unwrap().latest_durable_frame_no, 0);
    fs.store(&meta("ns", 0, 64, 1));
    assert_eq!(fs.meta().unwrap().latest_durable_frame_no, 64);
    fs.store(&meta("ns", 65, 90, 2));
    assert_eq!(fs.meta().unwrap().latest_durable_frame_no, 90);
    // A later store of an older range never lowers the summary.
    fs.store(&meta("ns", 30, 40, 3));
    assert_eq!(fs.meta().unwrap().latest_durable_frame_no, 90);
}

#[test]
fn meta_is_monotone_across_stores() {
    let mut fs = FsStorage::new(b"root".to_vec());
    let mut last = 0;
    for (start, end) in [(0u64, 5u64), (6, 50), (7, 8), (51, 60)] {
        fs.store(&meta("ns", start, end, 0));
        let now = fs.meta().unwrap().latest_durable_frame_no;
        assert!(now >= last);
        last = now;
    }
}

#[test]
fn adopted_listing_is_scanned_like_stored_entries() {
    let entries = vec![
        segment_file_name(0, 9, 100),
        segment_file_name(10, 19, 101),
    ];
    let fs = FsStorage::from_listing(b"root".to_vec(), entries);
    match fs.fetch_segment(12).unwrap() {
        FetchPlan::Local { index, .. } => assert_eq!(index, 1),
        FetchPlan::Remote => panic!("covered"),
    }
    assert_eq!(fs.meta().unwrap().latest_durable_frame_no, 19);
}

#[test]
fn header_cross_check_detects_renames() {
    let header = SegmentHeader {
        start_frame_no: 0,
        frame_count: 10,
        segment_id: 3,
        end_frame_no: 64,
    };
    assert!(FsStorage::verify_header(&header, 0, 64).is_ok());
    assert!(matches!(
        FsStorage::verify_header(&header, 1, 64),
        Err(Error::Integrity(_))
    ));
    assert!(matches!(
        FsStorage::verify_header(&header, 0, 63),
        Err(Error::Integrity(_))
    ));
}
