//! The zero-copy buffer contract.
//!
//! A buffer is a memory region that an asynchronous read or write operation
//! fills or drains without an intermediate copy. The region need not be
//! fully initialized up front: the buffer tracks an initialized watermark
//! (`bytes_init`) separately from its full capacity (`bytes_total`), and an
//! I/O completion advances the watermark with `set_init`. The unverified
//! I/O layer owns the actual byte transfer; these types own the watermark
//! bookkeeping and the checked access rules, so reading a record before it
//! is fully initialized is impossible for verified callers and reports an
//! absent value to unverified ones.

use vstd::prelude::*;

use crate::header::{
    lemma_header_round_trip, spec_header_of, SegmentHeader, SEGMENT_HEADER_BYTES,
};

verus! {

/// A readable I/O buffer: a region of `buf_total()` addressable bytes of
/// which the first `buf_init()` hold meaningful data.
pub trait IoBuf: Sized {
    /// Well-formedness of the buffer's bookkeeping.
    spec fn buf_inv(&self) -> bool;

    /// Number of initialized bytes, as an abstract value.
    spec fn buf_init(&self) -> nat;

    /// Full capacity of the region, as an abstract value.
    spec fn buf_total(&self) -> nat;

    /// Number of bytes, starting at the region's base, guaranteed to hold
    /// meaningful data.
    fn bytes_init(&self) -> (r: usize)
        requires
            self.buf_inv(),
        ensures
            r == self.buf_init(),
    ;

    /// Full addressable capacity of the region, initialized or not.
    fn bytes_total(&self) -> (r: usize)
        requires
            self.buf_inv(),
        ensures
            r == self.buf_total(),
    ;
}

/// A writable I/O buffer: the initialized watermark can be advanced after
/// an operation has actually written valid bytes up to the new position.
pub trait IoBufMut: IoBuf {
    /// Advances the initialized watermark to `pos`. The caller vouches that
    /// the just-completed operation wrote valid bytes up to `pos`; `pos`
    /// may never exceed the capacity.
    fn set_init(&mut self, pos: usize)
        requires
            old(self).buf_inv(),
            pos <= old(self).buf_total(),
        ensures
            final(self).buf_inv(),
            final(self).buf_total() == old(self).buf_total(),
            final(self).buf_init() >= pos,
    ;
}

/// Growable byte sequence: every byte it holds is initialized, so the
/// watermark and the capacity both equal the current length and the buffer
/// grows by ordinary appends.
impl IoBuf for Vec<u8> {
    open spec fn buf_inv(&self) -> bool {
        true
    }

    open spec fn buf_init(&self) -> nat {
        self@.len()
    }

    open spec fn buf_total(&self) -> nat {
        self@.len()
    }

    fn bytes_init(&self) -> (r: usize) {
        self.len()
    }

    fn bytes_total(&self) -> (r: usize) {
        self.len()
    }
}

impl IoBufMut for Vec<u8> {
    fn set_init(&mut self, pos: usize) {
        // Every position up to the length is already initialized, and `pos`
        // is bounded by the capacity, which is the length: the watermark
        // already covers `pos`.
    }
}

/// Owned-indirection wrapper: a buffer behind a uniquely-owned heap
/// indirection forwards the whole contract, for buffer types too large or
/// non-movable to keep inline.
impl<T: IoBuf> IoBuf for Box<T> {
    open spec fn buf_inv(&self) -> bool {
        (**self).buf_inv()
    }

    open spec fn buf_init(&self) -> nat {
        (**self).buf_init()
    }

    open spec fn buf_total(&self) -> nat {
        (**self).buf_total()
    }

    fn bytes_init(&self) -> (r: usize) {
        (**self).bytes_init()
    }

    fn bytes_total(&self) -> (r: usize) {
        (**self).bytes_total()
    }
}

impl<T: IoBufMut> IoBufMut for Box<T> {
    fn set_init(&mut self, pos: usize) {
        (**self).set_init(pos);
    }
}

/// Fixed single-record buffer: exactly the encoded size of a
/// [`SegmentHeader`], starting uninitialized, with checked access to the
/// record once the watermark reaches the full record size.
///
/// Its bytes model the backing storage that an in-flight read fills; the
/// unverified I/O layer deposits the bytes it read with [`Self::fill_from`],
/// which also advances the watermark.
pub struct ZeroCopyBuf {
    pub bytes: Vec<u8>,
    pub init: usize,
}

impl ZeroCopyBuf {
    pub open spec fn inv(&self) -> bool {
        self.bytes@.len() == SEGMENT_HEADER_BYTES && self.init <= SEGMENT_HEADER_BYTES
    }

    /// Whether the watermark has reached the full record size.
    pub open spec fn spec_is_init(&self) -> bool {
        self.init == SEGMENT_HEADER_BYTES
    }

    /// The record currently encoded in the buffer's bytes.
    pub open spec fn spec_record(&self) -> SegmentHeader {
        spec_header_of(self.bytes@)
    }

    /// A buffer already holding `inner`, fully initialized.
    pub fn new_init(inner: SegmentHeader) -> (r: Self)
        ensures
            r.inv(),
            r.spec_is_init(),
            r.spec_record() == inner,
    {
        let bytes = inner.to_bytes();
        proof {
            lemma_header_round_trip(inner);
        }
        ZeroCopyBuf { bytes, init: SEGMENT_HEADER_BYTES }
    }

    /// A fresh, fully uninitialized buffer: the watermark starts at zero.
    pub fn new_uninit() -> (r: Self)
        ensures
            r.inv(),
            r.buf_init() == 0,
            !r.spec_is_init(),
    {
        let mut bytes: Vec<u8> = Vec::new();
        let mut i: usize = 0;
        while i < SEGMENT_HEADER_BYTES
            invariant
                bytes@.len() == i,
                i <= SEGMENT_HEADER_BYTES,
            decreases SEGMENT_HEADER_BYTES - i,
        {
            bytes.push(0);
            i += 1;
        }
        ZeroCopyBuf { bytes, init: 0 }
    }

    /// Reports whether the record is fully initialized.
    pub fn is_init(&self) -> (r: bool)
        ensures
            r == self.spec_is_init(),
    {
        self.init == SEGMENT_HEADER_BYTES
    }

    /// Returns the record. Callers must have initialized it in full.
    pub fn get_ref(&self) -> (r: SegmentHeader)
        requires
            self.inv(),
            self.spec_is_init(),
        ensures
            r == self.spec_record(),
    {
        SegmentHeader::from_bytes(self.bytes.as_slice())
    }

    /// Checked accessor: the record if fully initialized, nothing
    /// otherwise. Unverified callers use this instead of [`Self::get_ref`].
    pub fn try_get(&self) -> (r: Option<SegmentHeader>)
        requires
            self.inv(),
        ensures
            match r {
                Some(h) => self.spec_is_init() && h == self.spec_record(),
                None => !self.spec_is_init(),
            },
    {
        if self.is_init() {
            Some(self.get_ref())
        } else {
            None
        }
    }

    /// Consumes the buffer and yields the record it holds.
    pub fn into_inner(self) -> (r: SegmentHeader)
        requires
            self.inv(),
            self.spec_is_init(),
        ensures
            r == self.spec_record(),
    {
        SegmentHeader::from_bytes(self.bytes.as_slice())
    }

    /// Marks the record uninitialized again, for reuse; the bytes stay.
    pub fn deinit(&mut self)
        requires
            old(self).inv(),
        ensures
            final(self).inv(),
            final(self).buf_init() == 0,
            final(self).bytes@ == old(self).bytes@,
    {
        self.init = 0;
    }

    /// Deposits the bytes a completed read produced, advancing the
    /// watermark over the whole record.
    pub fn fill_from(&mut self, data: &[u8])
        requires
            old(self).inv(),
            data@.len() == SEGMENT_HEADER_BYTES,
        ensures
            final(self).inv(),
            final(self).spec_is_init(),
            final(self).bytes@ == data@,
    {
        let mut bytes: Vec<u8> = Vec::new();
        let mut i: usize = 0;
        while i < SEGMENT_HEADER_BYTES
            invariant
                data@.len() == SEGMENT_HEADER_BYTES,
                bytes@ == data@.take(i as int),
                i <= SEGMENT_HEADER_BYTES,
            decreases SEGMENT_HEADER_BYTES - i,
        {
            bytes.push(data[i]);
            assert(bytes@ =~= data@.take(i as int + 1));
            i += 1;
        }
        assert(bytes@ =~= data@);
        self.bytes = bytes;
        self.init = SEGMENT_HEADER_BYTES;
    }
}

impl IoBuf for ZeroCopyBuf {
    open spec fn buf_inv(&self) -> bool {
        self.inv()
    }

    open spec fn buf_init(&self) -> nat {
        self.init as nat
    }

    open spec fn buf_total(&self) -> nat {
        SEGMENT_HEADER_BYTES as nat
    }

    fn bytes_init(&self) -> (r: usize) {
        self.init
    }

    fn bytes_total(&self) -> (r: usize) {
        SEGMENT_HEADER_BYTES
    }
}

impl IoBufMut for ZeroCopyBuf {
    fn set_init(&mut self, pos: usize) {
        self.init = pos;
    }
}

/// Bounded sub-view: carves the first `len` bytes out of a larger buffer
/// for a partial transfer, without copying. Capacity is clamped to the
/// inner buffer's; the watermark and the backing bytes stay the inner
/// buffer's own.
pub struct SubChunkBuf<T> {
    pub buf: T,
    pub len: usize,
}

impl<T> SubChunkBuf<T> {
    /// Wraps `buf`, exposing at most its first `len` bytes.
    pub fn new(buf: T, len: usize) -> (r: SubChunkBuf<T>)
        ensures
            r.buf == buf,
            r.len == len,
    {
        SubChunkBuf { buf, len }
    }

    /// Returns the wrapped buffer.
    pub fn into_inner(self) -> (r: T)
        ensures
            r == self.buf,
    {
        self.buf
    }
}

impl<T: IoBuf> IoBuf for SubChunkBuf<T> {
    open spec fn buf_inv(&self) -> bool {
        self.buf.buf_inv()
    }

    open spec fn buf_init(&self) -> nat {
        self.buf.buf_init()
    }

    open spec fn buf_total(&self) -> nat {
        if self.buf.buf_total() < self.len as nat {
            self.buf.buf_total()
        } else {
            self.len as nat
        }
    }

    fn bytes_init(&self) -> (r: usize) {
        self.buf.bytes_init()
    }

    fn bytes_total(&self) -> (r: usize) {
        let inner = self.buf.bytes_total();
        if inner < self.len {
            inner
        } else {
            self.len
        }
    }
}

impl<T: IoBufMut> IoBufMut for SubChunkBuf<T> {
    fn set_init(&mut self, pos: usize) {
        self.buf.set_init(pos);
    }
}

} // verus!
