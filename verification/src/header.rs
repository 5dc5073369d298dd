//! The fixed-size structured header stored at the start of every segment
//! file.
//!
//! The header records the segment's frame range, its globally unique
//! identity and its frame count. On the fetch path it is read back through
//! the fixed-record buffer and cross-validated against the range parsed
//! from the file name, so a silently renamed or truncated file cannot pass
//! undetected. Fields are laid out in declaration order, each little-endian.

use vstd::prelude::*;
use vstd::bytes::{
    lemma_auto_spec_u128_to_from_le_bytes, lemma_auto_spec_u64_to_from_le_bytes,
    spec_u128_from_le_bytes, spec_u128_to_le_bytes, spec_u64_from_le_bytes, spec_u64_to_le_bytes,
    u128_from_le_bytes, u128_to_le_bytes, u64_from_le_bytes, u64_to_le_bytes,
};
use vstd::slice::slice_subrange;

verus! {

/// Size of the encoded header in bytes: three `u64` fields and one `u128`.
pub const SEGMENT_HEADER_BYTES: usize = 40;

#[derive(Clone, Copy, Debug, PartialEq, Eq, Structural)]
pub struct SegmentHeader {
    pub start_frame_no: u64,
    pub frame_count: u64,
    pub segment_id: u128,
    pub end_frame_no: u64,
}

/// The encoded form of a header.
pub open spec fn spec_header_bytes(h: SegmentHeader) -> Seq<u8> {
    spec_u64_to_le_bytes(h.start_frame_no) + spec_u64_to_le_bytes(h.frame_count)
        + spec_u128_to_le_bytes(h.segment_id) + spec_u64_to_le_bytes(h.end_frame_no)
}

/// The header recorded in a 40-byte encoding.
pub open spec fn spec_header_of(s: Seq<u8>) -> SegmentHeader {
    SegmentHeader {
        start_frame_no: spec_u64_from_le_bytes(s.subrange(0, 8)),
        frame_count: spec_u64_from_le_bytes(s.subrange(8, 16)),
        segment_id: spec_u128_from_le_bytes(s.subrange(16, 32)),
        end_frame_no: spec_u64_from_le_bytes(s.subrange(32, 40)),
    }
}

/// Decoding inverts encoding: a header read back from its own encoding is
/// the header that was written.
pub proof fn lemma_header_round_trip(h: SegmentHeader)
    ensures
        spec_header_bytes(h).len() == SEGMENT_HEADER_BYTES,
        spec_header_of(spec_header_bytes(h)) == h,
{
    lemma_auto_spec_u64_to_from_le_bytes();
    lemma_auto_spec_u128_to_from_le_bytes();
    let s = spec_header_bytes(h);
    assert(s.subrange(0, 8) =~= spec_u64_to_le_bytes(h.start_frame_no));
    assert(s.subrange(8, 16) =~= spec_u64_to_le_bytes(h.frame_count));
    assert(s.subrange(16, 32) =~= spec_u128_to_le_bytes(h.segment_id));
    assert(s.subrange(32, 40) =~= spec_u64_to_le_bytes(h.end_frame_no));
}

impl SegmentHeader {
    /// Encodes the header into its 40-byte on-disk form.
    pub fn to_bytes(&self) -> (r: Vec<u8>)
        ensures
            r@ == spec_header_bytes(*self),
            r@.len() == SEGMENT_HEADER_BYTES,
    {
        let mut out = u64_to_le_bytes(self.start_frame_no);
        let mut b = u64_to_le_bytes(self.frame_count);
        out.append(&mut b);
        let mut c = u128_to_le_bytes(self.segment_id);
        out.append(&mut c);
        let mut d = u64_to_le_bytes(self.end_frame_no);
        out.append(&mut d);
        assert(out@ =~= spec_header_bytes(*self));
        out
    }

    /// Decodes a header from its 40-byte on-disk form.
    pub fn from_bytes(bytes: &[u8]) -> (r: SegmentHeader)
        requires
            bytes@.len() == SEGMENT_HEADER_BYTES,
        ensures
            r == spec_header_of(bytes@),
    {
        let start_frame_no = u64_from_le_bytes(slice_subrange(bytes, 0, 8));
        let frame_count = u64_from_le_bytes(slice_subrange(bytes, 8, 16));
        let segment_id = u128_from_le_bytes(slice_subrange(bytes, 16, 32));
        let end_frame_no = u64_from_le_bytes(slice_subrange(bytes, 32, 40));
        SegmentHeader { start_frame_no, frame_count, segment_id, end_frame_no }
    }
}

} // verus!
