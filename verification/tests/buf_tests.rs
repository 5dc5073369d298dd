use bottomless::buf::{IoBuf, IoBufMut, SubChunkBuf, ZeroCopyBuf};
use bottomless::header::{SegmentHeader, SEGMENT_HEADER_BYTES};

fn sample_header() -> SegmentHeader {
    SegmentHeader {
        start_frame_no: 0,
        frame_count: 10,
        segment_id: 0x1234_5678_9abc_def0_1122_3344_5566_7788,
        end_frame_no: 64,
    }
}

#[test]
fn uninit_buffer_reports_zero_initialized() {
    let buf = ZeroCopyBuf::new_uninit();
    assert_eq!(buf.bytes_init(), 0);
    assert_eq!(buf.bytes_total(), SEGMENT_HEADER_BYTES);
    assert!(!buf.is_init());
    assert!(buf.try_get().is_none());
}

#[test]
fn accessor_succeeds_once_fully_initialized() {
    let h = sample_header();
    let mut buf = ZeroCopyBuf::new_init(h);
    assert!(buf.is_init());
    assert_eq!(buf.bytes_init(), SEGMENT_HEADER_BYTES);
    assert_eq!(buf.get_ref(), h);
    assert_eq!(buf.try_get(), Some(h));

    buf.deinit();
    assert_eq!(buf.bytes_init(), 0);
    assert!(buf.try_get().is_none());

    // The bytes are still in place; advancing the watermark over the full
    // record makes the checked accessor succeed again.
    buf.set_init(SEGMENT_HEADER_BYTES);
    assert_eq!(buf.try_get(), Some(h));
    assert_eq!(buf.into_inner(), h);
}

#[test]
fn fill_from_deposits_read_bytes() {
    let h = sample_header();
    let encoded = h.to_bytes();
    let mut buf = ZeroCopyBuf::new_uninit();
    assert!(buf.try_get().is_none());
    buf.fill_from(encoded.as_slice());
    assert_eq!(buf.try_get(), Some(h));
}

#[test]
fn header_codec_round_trips() {
    let h = sample_header();
    let bytes = h.to_bytes();
    assert_eq!(bytes.len(), SEGMENT_HEADER_BYTES);
    assert_eq!(SegmentHeader::from_bytes(bytes.as_slice()), h);
}

#[test]
fn growable_buffer_is_fully_initialized() {
    let v: Vec<u8> = vec![1, 2, 3, 4, 5];
    assert_eq!(v.bytes_init(), 5);
    assert_eq!(v.bytes_total(), 5);
    let mut v = v;
    v.set_init(3);
    assert_eq!(v.bytes_init(), 5);
}

#[test]
fn boxed_buffer_forwards_the_contract() {
    let mut boxed = Box::new(ZeroCopyBuf::new_uninit());
    assert_eq!(boxed.bytes_init(), 0);
    assert_eq!(boxed.bytes_total(), SEGMENT_HEADER_BYTES);
    boxed.set_init(SEGMENT_HEADER_BYTES);
    assert_eq!(boxed.bytes_init(), SEGMENT_HEADER_BYTES);

    let sub = SubChunkBuf::new(Box::new(vec![1u8, 2, 3]), 2);
    assert_eq!(sub.bytes_total(), 2);
    assert_eq!(sub.bytes_init(), 3);
}

#[test]
fn sub_view_clamps_capacity_to_minimum() {
    // For every combination: capacity T of the inner buffer, configured
    // length L, the sub-view reports min(T, L).
    for t in [0usize, 1, 7, 40, 100] {
        for l in [0usize, 1, 7, 40, 100] {
            let inner: Vec<u8> = vec![0; t];
            let sub = SubChunkBuf::new(inner, l);
            assert_eq!(sub.bytes_total(), t.min(l), "T={} L={}", t, l);
        }
    }
}

#[test]
fn sub_view_delegates_watermark_and_unwraps() {
    let inner: Vec<u8> = vec![9; 8];
    let sub = SubChunkBuf::new(inner, 4);
    assert_eq!(sub.bytes_init(), 8);
    assert_eq!(sub.bytes_total(), 4);
    let back = sub.into_inner();
    assert_eq!(back, vec![9; 8]);

    let record = SubChunkBuf::new(ZeroCopyBuf::new_uninit(), 16);
    assert_eq!(record.bytes_total(), 16);
    assert_eq!(record.bytes_init(), 0);
}
