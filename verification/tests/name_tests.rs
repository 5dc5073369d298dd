use bottomless::name::{parse_segment_file_name, segment_file_name};
use bottomless::Error;

fn rust_formatted(start: u64, end: u64, ts: i64) -> Vec<u8> {
    format!("{:019}-{:019}-{:019}.segment", start, end, ts).into_bytes()
}

#[test]
fn format_matches_zero_padded_rendering() {
    assert_eq!(
        segment_file_name(0, 64, 1715200000),
        rust_formatted(0, 64, 1715200000)
    );
    assert_eq!(
        String::from_utf8(segment_file_name(0, 64, 1715200000)).unwrap(),
        "0000000000000000000-0000000000000000064-0000000001715200000.segment"
    );
}

#[test]
fn format_matches_for_extreme_values() {
    assert_eq!(
        segment_file_name(u64::MAX, u64::MAX, i64::MAX),
        rust_formatted(u64::MAX, u64::MAX, i64::MAX)
    );
    assert_eq!(segment_file_name(0, 0, 0), rust_formatted(0, 0, 0));
    assert_eq!(
        segment_file_name(9_999_999_999_999_999_999, u64::MAX, -1),
        rust_formatted(9_999_999_999_999_999_999, u64::MAX, -1)
    );
    assert_eq!(
        segment_file_name(1, 2, i64::MIN),
        rust_formatted(1, 2, i64::MIN)
    );
}

#[test]
fn round_trip_recovers_frame_range() {
    let cases: &[(u64, u64, i64)] = &[
        (0, 0, 0),
        (0, 64, 1715200000),
        (5, 5, -12345),
        (u64::MAX - 1, u64::MAX, i64::MIN),
        (u64::MAX, u64::MAX, i64::MAX),
        (123, 456, -1),
    ];
    for &(start, end, ts) in cases {
        let name = segment_file_name(start, end, ts);
        let parsed = parse_segment_file_name(&name).unwrap();
        assert_eq!(parsed, (start, end));
    }
}

#[test]
fn round_trip_with_current_clock() {
    let ts = chrono::Utc::now().timestamp();
    let name = segment_file_name(7, 9, ts);
    assert_eq!(parse_segment_file_name(&name).unwrap(), (7, 9));
}

#[test]
fn parse_accepts_name_without_extension() {
    assert_eq!(parse_segment_file_name(&b"5-6".to_vec()).unwrap(), (5, 6));
}

#[test]
fn parse_ignores_components_past_the_second() {
    assert_eq!(
        parse_segment_file_name(&b"10-20-whatever-more.segment".to_vec()).unwrap(),
        (10, 20)
    );
}

#[test]
fn parse_rejects_malformed_names() {
    let malformed: &[&[u8]] = &[
        b"",
        b"nodash.segment",
        b"123.segment",
        b"-5-7.segment",
        b"5-.segment",
        b"a5-7.segment",
        b"5-7a.segment",
        b"18446744073709551616-5-7.segment",
        b"5-18446744073709551616-7.segment",
        b".segment",
    ];
    for name in malformed {
        let r = parse_segment_file_name(&name.to_vec());
        assert!(
            matches!(r, Err(Error::Integrity(_))),
            "expected integrity fault for {:?}",
            String::from_utf8_lossy(name)
        );
    }
}

#[test]
fn parse_accepts_largest_u64() {
    let name = b"18446744073709551615-18446744073709551615-0.segment".to_vec();
    assert_eq!(
        parse_segment_file_name(&name).unwrap(),
        (u64::MAX, u64::MAX)
    );
}

#[test]
fn fixed_width_names_sort_like_frame_numbers() {
    let a = segment_file_name(99, 100, 0);
    let b = segment_file_name(100, 200, 0);
    let c = segment_file_name(1000, 2000, 0);
    assert!(a < b);
    assert!(b < c);
}
