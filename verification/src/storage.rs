//! Tiered filesystem storage.
//!
//! A concrete store backed by a local `segments/` cache directory in front
//! of a pluggable remote tier. This module owns every decision of that
//! store: which file name a segment is stored under, which cached entry
//! satisfies a fetch, when a fetch must fall through to the remote tier,
//! when a name is malformed, and what the durability summary of the cache
//! is. The unverified host performs the filesystem work (create, write,
//! hard-link, upload) at the paths these functions hand it, and keeps the
//! in-memory index in step with the directory: one entry per stored
//! segment file, in store order.

use vstd::prelude::*;

use crate::header::SegmentHeader;
use crate::name::{parse_segment_file_name, segment_file_name, spec_parse_name,
    spec_segment_file_name, lemma_name_round_trip};
use crate::types::{DbMeta, SegmentMeta};
use crate::Error;

verus! {

/// The name parses: it was produced by the naming scheme (or is
/// indistinguishable from such a name).
pub open spec fn wf_name(name: Seq<u8>) -> bool {
    spec_parse_name(name) is Some
}

/// The frame range a well-formed name encodes ends at this frame.
pub open spec fn parsed_end(name: Seq<u8>) -> u64 {
    match spec_parse_name(name) {
        Some(p) => p.1,
        None => 0,
    }
}

/// The segment stored under `name` covers `frame_no`.
pub open spec fn covers(name: Seq<u8>, frame_no: u64) -> bool {
    match spec_parse_name(name) {
        Some(p) => p.0 <= frame_no && frame_no <= p.1,
        None => false,
    }
}

/// `/segments` appended to the store's root prefix.
pub open spec fn spec_segments_dir(prefix: Seq<u8>) -> Seq<u8> {
    prefix + seq![47u8, 115u8, 101u8, 103u8, 109u8, 101u8, 110u8, 116u8, 115u8]
}

/// The full path of a segment file: `<prefix>/segments/<name>`.
pub open spec fn spec_segment_path(prefix: Seq<u8>, name: Seq<u8>) -> Seq<u8> {
    spec_segments_dir(prefix) + seq![47u8] + name
}

/// The durability summary `m` correctly describes the cache entries `s`:
/// every entry parses, none ends past `m`, and `m` is an entry's end
/// frame unless the cache is empty.
pub open spec fn meta_spec(s: Seq<Vec<u8>>, m: DbMeta) -> bool {
    &&& forall|i: int| 0 <= i < s.len() ==> wf_name(#[trigger] s[i]@)
    &&& forall|i: int|
        0 <= i < s.len() ==> parsed_end(#[trigger] s[i]@) <= m.latest_durable_frame_no
    &&& s.len() == 0 ==> m.latest_durable_frame_no == 0
    &&& s.len() > 0 ==> exists|i: int|
        0 <= i < s.len() && parsed_end(#[trigger] s[i]@) == m.latest_durable_frame_no
}

/// Where a fetch is served from.
pub enum FetchPlan {
    /// A cached segment covers the frame: hard-link the file at `path`
    /// (entry number `index` of the cache) to the destination; no data is
    /// copied.
    Local { index: usize, path: Vec<u8> },
    /// No cached segment covers the frame: pull from the remote tier,
    /// populate the cache with the fetched bytes, then hard-link. If the
    /// remote tier cannot satisfy the range either, the fetch fails with
    /// the frame-not-found fault.
    Remote,
}

/// The local tier: a root directory with a `segments/` cache, plus an
/// in-memory index of the cached segment file names, in store order.
pub struct FsStorage {
    /// Root directory of the store, as a path byte string.
    pub prefix: Vec<u8>,
    /// File names present under `segments/`, oldest store first.
    pub entries: Vec<Vec<u8>>,
}

impl FsStorage {
    /// A store over an empty cache. The host creates
    /// `<prefix>/segments` eagerly on construction.
    pub fn new(prefix: Vec<u8>) -> (r: Self)
        ensures
            r.prefix@ == prefix@,
            r.entries@.len() == 0,
    {
        FsStorage { prefix, entries: Vec::new() }
    }

    /// A store over a cache directory that already holds `entries`.
    pub fn from_listing(prefix: Vec<u8>, entries: Vec<Vec<u8>>) -> (r: Self)
        ensures
            r.prefix@ == prefix@,
            r.entries@ == entries@,
    {
        FsStorage { prefix, entries }
    }

    /// The cache directory's path.
    pub fn segments_dir(&self) -> (r: Vec<u8>)
        ensures
            r@ == spec_segments_dir(self.prefix@),
    {
        let mut out: Vec<u8> = Vec::new();
        out.extend_from_slice(self.prefix.as_slice());
        out.push(47);
        out.push(115);
        out.push(101);
        out.push(103);
        out.push(109);
        out.push(101);
        out.push(110);
        out.push(116);
        out.push(115);
        assert(out@ =~= spec_segments_dir(self.prefix@));
        out
    }

    /// Records the storing of the segment `meta` describes and returns the
    /// path of the new segment file. The host then opens that path
    /// (create, truncate, write), writes the segment bytes read through
    /// the buffer contract at offset zero, and only afterwards forwards
    /// the same path to the remote tier's upload, so a failed upload still
    /// leaves a locally durable copy.
    pub fn store(&mut self, meta: &SegmentMeta) -> (path: Vec<u8>)
        ensures
            final(self).prefix@ == old(self).prefix@,
            final(self).entries@.len() == old(self).entries@.len() + 1,
            final(self).entries@.last()@ == spec_segment_file_name(
                meta.start_frame_no,
                meta.end_frame_no,
                meta.created_at,
            ),
            forall|i: int|
                0 <= i < old(self).entries@.len() ==> #[trigger] final(self).entries@[i] == old(
                    self,
                ).entries@[i],
            path@ == spec_segment_path(
                old(self).prefix@,
                spec_segment_file_name(meta.start_frame_no, meta.end_frame_no, meta.created_at),
            ),
    {
        let name = segment_file_name(meta.start_frame_no, meta.end_frame_no, meta.created_at);
        let path = self.path_for(&name);
        self.entries.push(name);
        path
    }

    /// The full path of the cache entry `name`.
    pub fn path_for(&self, name: &Vec<u8>) -> (r: Vec<u8>)
        ensures
            r@ == spec_segment_path(self.prefix@, name@),
    {
        let mut out = self.segments_dir();
        out.push(47);
        out.extend_from_slice(name.as_slice());
        assert(out@ =~= spec_segment_path(self.prefix@, name@));
        out
    }

    /// Decides how to materialize the segment covering `frame_no`: the
    /// first cache entry whose range covers it wins; with no covering
    /// entry the fetch falls through to the remote tier. A cache entry
    /// with a malformed name reached during the scan is an integrity
    /// fault, reported rather than skipped.
    pub fn fetch_segment(&self, frame_no: u64) -> (r: crate::Result<FetchPlan>)
        ensures
            match r {
                Ok(plan) => match plan {
                    FetchPlan::Local { index, path } => {
                        &&& index < self.entries@.len()
                        &&& covers(self.entries@[index as int]@, frame_no)
                        &&& forall|j: int|
                            0 <= j < index ==> wf_name(#[trigger] self.entries@[j]@) && !covers(
                                self.entries@[j]@,
                                frame_no,
                            )
                        &&& path@ == spec_segment_path(
                            self.prefix@,
                            self.entries@[index as int]@,
                        )
                    },
                    FetchPlan::Remote => forall|j: int|
                        0 <= j < self.entries@.len() ==> wf_name(#[trigger] self.entries@[j]@)
                            && !covers(self.entries@[j]@, frame_no),
                },
                Err(e) => {
                    &&& e is Integrity
                    &&& exists|i: int|
                        0 <= i < self.entries@.len() && !wf_name(#[trigger] self.entries@[i]@)
                },
            },
    {
        let n = self.entries.len();
        let mut i: usize = 0;
        while i < n
            invariant
                n == self.entries@.len(),
                i <= n,
                forall|j: int|
                    0 <= j < i ==> wf_name(#[trigger] self.entries@[j]@) && !covers(
                        self.entries@[j]@,
                        frame_no,
                    ),
            decreases n - i,
        {
            let parsed = parse_segment_file_name(&self.entries[i]);
            match parsed {
                Ok((start_frame, end_frame)) => {
                    if start_frame <= frame_no && end_frame >= frame_no {
                        let path = self.path_for(&self.entries[i]);
                        return Ok(FetchPlan::Local { index: i, path });
                    }
                },
                Err(e) => {
                    return Err(e);
                },
            }
            i += 1;
        }
        Ok(FetchPlan::Remote)
    }

    /// The durability summary of the cache: the highest end frame over all
    /// cached segments, zero for an empty cache. A malformed entry name is
    /// an integrity fault.
    pub fn meta(&self) -> (r: crate::Result<DbMeta>)
        ensures
            match r {
                Ok(m) => meta_spec(self.entries@, m),
                Err(e) => {
                    &&& e is Integrity
                    &&& exists|i: int|
                        0 <= i < self.entries@.len() && !wf_name(#[trigger] self.entries@[i]@)
                },
            },
    {
        let n = self.entries.len();
        let mut latest: u64 = 0;
        let ghost mut witness: int = 0;
        let mut i: usize = 0;
        while i < n
            invariant
                n == self.entries@.len(),
                i <= n,
                forall|j: int| 0 <= j < i ==> wf_name(#[trigger] self.entries@[j]@),
                forall|j: int| 0 <= j < i ==> parsed_end(#[trigger] self.entries@[j]@) <= latest,
                i == 0 ==> latest == 0,
                i > 0 ==> 0 <= witness < i && parsed_end(self.entries@[witness]@) == latest,
            decreases n - i,
        {
            let parsed = parse_segment_file_name(&self.entries[i]);
            match parsed {
                Ok((start_frame, end_frame)) => {
                    if end_frame > latest || i == 0 {
                        latest = end_frame;
                        proof {
                            witness = i as int;
                        }
                    }
                },
                Err(e) => {
                    return Err(e);
                },
            }
            i += 1;
        }
        Ok(DbMeta { latest_durable_frame_no: latest })
    }

    /// Cross-validates the header read from a cached segment file against
    /// the frame range parsed from its file name; any disagreement means
    /// the file was renamed, truncated or corrupted, and is an integrity
    /// fault.
    pub fn verify_header(header: &SegmentHeader, start_frame: u64, end_frame: u64) -> (r:
        crate::Result<()>)
        ensures
            match r {
                Ok(()) => header.start_frame_no == start_frame && header.end_frame_no
                    == end_frame,
                Err(e) => e is Integrity && (header.start_frame_no != start_frame
                    || header.end_frame_no != end_frame),
            },
    {
        if header.start_frame_no == start_frame && header.end_frame_no == end_frame {
            Ok(())
        } else {
            Err(Error::Integrity(String::new()))
        }
    }
}

/// Store-then-fetch: the name a segment is stored under covers exactly the
/// frames of the segment's own range, so a fetch of any frame in
/// `[start_frame_no, end_frame_no]` is satisfied by the stored entry and a
/// fetch outside it is not.
pub proof fn lemma_stored_name_covers(meta: SegmentMeta, frame_no: u64)
    ensures
        covers(
            spec_segment_file_name(meta.start_frame_no, meta.end_frame_no, meta.created_at),
            frame_no,
        ) <==> (meta.start_frame_no <= frame_no <= meta.end_frame_no),
{
    lemma_name_round_trip(meta.start_frame_no, meta.end_frame_no, meta.created_at);
}

/// Monotonic watermark: storing only ever appends cache entries, so the
/// durability summary of a namespace's cache never decreases across any
/// sequence of successful stores.
pub proof fn lemma_meta_monotone(s1: Seq<Vec<u8>>, s2: Seq<Vec<u8>>, m1: DbMeta, m2: DbMeta)
    requires
        s1.len() <= s2.len(),
        forall|i: int| 0 <= i < s1.len() ==> #[trigger] s2[i]@ == s1[i]@,
        meta_spec(s1, m1),
        meta_spec(s2, m2),
    ensures
        m1.latest_durable_frame_no <= m2.latest_durable_frame_no,
{
    if s1.len() > 0 {
        let i = choose|i: int|
            0 <= i < s1.len() && parsed_end(#[trigger] s1[i]@) == m1.latest_durable_frame_no;
        assert(s2[i]@ == s1[i]@);
        assert(parsed_end(s2[i]@) <= m2.latest_durable_frame_no);
    }
}

} // verus!
