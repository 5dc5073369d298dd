//! Segment file naming scheme.
//!
//! A segment occupies the file `<start>-<end>-<created_at>.segment`, where
//! `start` and `end` are the segment's frame range and `created_at` its
//! creation time in unix seconds. Each numeric field is zero-padded to at
//! least 19 decimal digits, so lexicographic filename order coincides with
//! `start_frame_no` order for all values below `10^19`. Names are treated
//! as byte strings; every byte the scheme produces is ASCII.

use vstd::prelude::*;
use vstd::arithmetic::div_mod::{lemma_div_pos_is_pos, lemma_fundamental_div_mod, lemma_mod_bound};

use crate::Error;

verus! {

pub const DASH: u8 = 45;
pub const DOT: u8 = 46;
pub const ZERO: u8 = 48;

/// `10^19`, the smallest value that does not fit in 19 decimal digits.
pub const POW19: u64 = 10_000_000_000_000_000_000;

/// `10^18`, the smallest value that does not fit in 18 decimal digits.
pub const POW18: u64 = 1_000_000_000_000_000_000;

pub open spec fn pow10(n: nat) -> int
    decreases n,
{
    if n == 0 {
        1
    } else {
        10 * pow10((n - 1) as nat)
    }
}

/// The exactly-`n`-digit decimal rendering of `v mod 10^n`, most significant
/// digit first.
pub open spec fn pad_digits(v: nat, n: nat) -> Seq<u8>
    decreases n,
{
    if n == 0 {
        Seq::empty()
    } else {
        pad_digits(v / 10, (n - 1) as nat).push((ZERO + v % 10) as u8)
    }
}

pub open spec fn is_digit(b: u8) -> bool {
    ZERO <= b <= 57
}

pub open spec fn all_digits(s: Seq<u8>) -> bool {
    forall|i: int| 0 <= i < s.len() ==> is_digit(#[trigger] s[i])
}

/// The numeric value of a digit string, most significant digit first.
pub open spec fn digits_value(s: Seq<u8>) -> int
    decreases s.len(),
{
    if s.len() == 0 {
        0
    } else {
        digits_value(s.drop_last()) * 10 + s.last() - ZERO
    }
}

/// A digit string that Rust's `u64` parsing would accept.
pub open spec fn valid_u64_digits(s: Seq<u8>) -> bool {
    s.len() > 0 && all_digits(s) && digits_value(s) <= u64::MAX
}

/// How a `u64` frame number is rendered: 19 digits, or 20 for the values
/// past `10^19` (a `u64` never needs more).
pub open spec fn field_digits(v: u64) -> Seq<u8> {
    if v < POW19 {
        pad_digits(v as nat, 19)
    } else {
        pad_digits(v as nat, 20)
    }
}

/// How the signed creation timestamp is rendered: zero-padded to a total
/// width of 19, the sign included, and wider only where the magnitude needs
/// it.
pub open spec fn ts_digits(t: i64) -> Seq<u8> {
    if t >= 0 {
        pad_digits(t as nat, 19)
    } else if -(t as int) < POW18 {
        seq![DASH] + pad_digits((-(t as int)) as nat, 18)
    } else {
        seq![DASH] + pad_digits((-(t as int)) as nat, 19)
    }
}

/// The `.segment` extension.
pub open spec fn ext_bytes() -> Seq<u8> {
    seq![DOT, 115u8, 101u8, 103u8, 109u8, 101u8, 110u8, 116u8]
}

/// The full file name of a segment: `<start>-<end>-<created_at>.segment`.
pub open spec fn spec_segment_file_name(start: u64, end: u64, created_at: i64) -> Seq<u8> {
    field_digits(start) + seq![DASH] + field_digits(end) + seq![DASH] + ts_digits(created_at)
        + ext_bytes()
}

/// Index of the first occurrence of `b` in `s`, or `s.len()` if absent.
pub open spec fn first_idx(s: Seq<u8>, b: u8) -> int
    decreases s.len(),
{
    if s.len() == 0 {
        0
    } else if s[0] == b {
        0
    } else {
        1 + first_idx(s.drop_first(), b)
    }
}

/// What parsing a file name yields: the name up to the first `.` is split
/// on `-`; the first two components must be non-empty digit strings whose
/// values fit in a `u64`. Components past the second are ignored, as is the
/// extension.
pub open spec fn spec_parse_name(s: Seq<u8>) -> Option<(u64, u64)> {
    let key = s.take(first_idx(s, DOT));
    let d1 = first_idx(key, DASH);
    if d1 == key.len() {
        None
    } else {
        let c1 = key.take(d1);
        let rest = key.skip(d1 + 1);
        let c2 = rest.take(first_idx(rest, DASH));
        if valid_u64_digits(c1) && valid_u64_digits(c2) {
            Some(((digits_value(c1) as u64), (digits_value(c2) as u64)))
        } else {
            None
        }
    }
}

pub proof fn lemma_first_idx_bounds(s: Seq<u8>, b: u8)
    ensures
        0 <= first_idx(s, b) <= s.len(),
        first_idx(s, b) < s.len() ==> s[first_idx(s, b)] == b,
        forall|j: int| 0 <= j < first_idx(s, b) ==> s[j] != b,
    decreases s.len(),
{
    if s.len() > 0 && s[0] != b {
        lemma_first_idx_bounds(s.drop_first(), b);
        assert forall|j: int| 0 <= j < first_idx(s, b) implies s[j] != b by {
            if j > 0 {
                assert(s.drop_first()[j - 1] == s[j]);
            }
        }
    }
}

/// The first occurrence is pinned by a witness: `b` nowhere before `i`, and
/// at `i` unless `i` is the length.
pub proof fn lemma_first_idx_is(s: Seq<u8>, b: u8, i: int)
    requires
        0 <= i <= s.len(),
        forall|j: int| 0 <= j < i ==> s[j] != b,
        i < s.len() ==> s[i] == b,
    ensures
        first_idx(s, b) == i,
{
    lemma_first_idx_bounds(s, b);
    if first_idx(s, b) < i {
    } else if first_idx(s, b) > i {
        assert(i < s.len());
    }
}

pub proof fn lemma_pad_digits_len(v: nat, n: nat)
    ensures
        pad_digits(v, n).len() == n,
        all_digits(pad_digits(v, n)),
    decreases n,
{
    if n > 0 {
        lemma_pad_digits_len(v / 10, (n - 1) as nat);
        lemma_mod_bound(v as int, 10);
        let s = pad_digits(v / 10, (n - 1) as nat);
        assert forall|i: int| 0 <= i < s.push((ZERO + v % 10) as u8).len() implies is_digit(
            #[trigger] s.push((ZERO + v % 10) as u8)[i],
        ) by {
            if i < s.len() {
                assert(s.push((ZERO + v % 10) as u8)[i] == s[i]);
            }
        }
    }
}

/// Padded rendering round-trips through `digits_value` whenever the value
/// fits in the width.
pub proof fn lemma_pad_digits_value(v: nat, n: nat)
    requires
        v < pow10(n),
    ensures
        digits_value(pad_digits(v, n)) == v,
    decreases n,
{
    if n == 0 {
    } else {
        lemma_div_pos_is_pos(v as int, 10);
        lemma_mod_bound(v as int, 10);
        lemma_fundamental_div_mod(v as int, 10);
        assert(v / 10 < pow10((n - 1) as nat)) by {
            if v / 10 >= pow10((n - 1) as nat) {
                assert(v >= 10 * (v / 10)) by {
                    lemma_fundamental_div_mod(v as int, 10);
                };
                assert(10 * (v / 10) >= 10 * pow10((n - 1) as nat)) by (nonlinear_arith)
                    requires
                        v / 10 >= pow10((n - 1) as nat),
                ;
            }
        };
        lemma_pad_digits_value(v / 10, (n - 1) as nat);
        let s = pad_digits(v / 10, (n - 1) as nat);
        let p = s.push((ZERO + v % 10) as u8);
        assert(p.drop_last() =~= s);
        assert(digits_value(p) == digits_value(s) * 10 + v % 10);
    }
}

pub proof fn lemma_pow10_values()
    ensures
        pow10(18) == POW18,
        pow10(19) == POW19,
        pow10(20) == 100_000_000_000_000_000_000,
{
    assert(pow10(0) == 1);
    assert(pow10(1) == 10);
    assert(pow10(2) == 100);
    assert(pow10(3) == 1000);
    assert(pow10(4) == 10000);
    assert(pow10(5) == 100000);
    assert(pow10(6) == 1000000);
    assert(pow10(7) == 10000000);
    assert(pow10(8) == 100000000);
    assert(pow10(9) == 1000000000);
    assert(pow10(10) == 10000000000);
    assert(pow10(11) == 100000000000);
    assert(pow10(12) == 1000000000000);
    assert(pow10(13) == 10000000000000);
    assert(pow10(14) == 100000000000000);
    assert(pow10(15) == 1000000000000000);
    assert(pow10(16) == 10000000000000000);
    assert(pow10(17) == 100000000000000000);
    assert(pow10(18) == 1000000000000000000);
    assert(pow10(19) == 10000000000000000000);
    assert(pow10(20) == 100000000000000000000);
}

/// A rendered frame-number field is all digits, fits a `u64`, and reads
/// back as the value it was rendered from.
pub proof fn lemma_field_digits(v: u64)
    ensures
        19 <= field_digits(v).len() <= 20,
        valid_u64_digits(field_digits(v)),
        digits_value(field_digits(v)) == v,
{
    lemma_pow10_values();
    if v < POW19 {
        lemma_pad_digits_len(v as nat, 19);
        lemma_pad_digits_value(v as nat, 19);
    } else {
        lemma_pad_digits_len(v as nat, 20);
        lemma_pad_digits_value(v as nat, 20);
    }
}

/// The timestamp field never holds a digit byte below `-` or a `.`; more
/// precisely, every byte of it is a digit or the leading `-`.
pub proof fn lemma_ts_digits_shape(t: i64)
    ensures
        ts_digits(t).len() >= 19,
        forall|i: int|
            0 <= i < ts_digits(t).len() ==> (is_digit(#[trigger] ts_digits(t)[i]) || ts_digits(
                t,
            )[i] == DASH),
{
    if t >= 0 {
        lemma_pad_digits_len(t as nat, 19);
    } else if -(t as int) < POW18 {
        lemma_pad_digits_len((-(t as int)) as nat, 18);
        let s = seq![DASH] + pad_digits((-(t as int)) as nat, 18);
        assert forall|i: int| 0 <= i < s.len() implies (is_digit(#[trigger] s[i]) || s[i]
            == DASH) by {
            if i > 0 {
                assert(s[i] == pad_digits((-(t as int)) as nat, 18)[i - 1]);
            }
        }
    } else {
        lemma_pad_digits_len((-(t as int)) as nat, 19);
        let s = seq![DASH] + pad_digits((-(t as int)) as nat, 19);
        assert forall|i: int| 0 <= i < s.len() implies (is_digit(#[trigger] s[i]) || s[i]
            == DASH) by {
            if i > 0 {
                assert(s[i] == pad_digits((-(t as int)) as nat, 19)[i - 1]);
            }
        }
    }
}

/// Naming round-trip: parsing a freshly rendered segment file name recovers
/// exactly the frame range it was rendered from, for every `start`, `end`
/// and every timestamp.
pub proof fn lemma_name_round_trip(start: u64, end: u64, created_at: i64)
    ensures
        spec_parse_name(spec_segment_file_name(start, end, created_at)) == Some((start, end)),
{
    let f1 = field_digits(start);
    let f2 = field_digits(end);
    let tsf = ts_digits(created_at);
    let name = spec_segment_file_name(start, end, created_at);
    let key = f1 + seq![DASH] + f2 + seq![DASH] + tsf;
    lemma_field_digits(start);
    lemma_field_digits(end);
    lemma_ts_digits_shape(created_at);

    // The first `.` is the one that begins the extension.
    assert(name.len() == key.len() + 8);
    assert forall|j: int| 0 <= j < key.len() implies name[j] != DOT by {
        assert(name[j] == key[j]);
        if j < f1.len() {
            assert(key[j] == f1[j]);
        } else if j == f1.len() {
            assert(key[j] == DASH);
        } else if j < f1.len() + 1 + f2.len() {
            assert(key[j] == f2[j - f1.len() - 1]);
        } else if j == f1.len() + 1 + f2.len() {
            assert(key[j] == DASH);
        } else {
            assert(key[j] == tsf[j - (f1.len() + 1 + f2.len() + 1)]);
        }
    }
    assert(name[key.len() as int] == ext_bytes()[0]);
    lemma_first_idx_is(name, DOT, key.len() as int);
    assert(name.take(key.len() as int) =~= key);

    // The first `-` of the key ends the start field.
    assert forall|j: int| 0 <= j < f1.len() implies key[j] != DASH by {
        assert(key[j] == f1[j]);
    }
    assert(key[f1.len() as int] == DASH);
    lemma_first_idx_is(key, DASH, f1.len() as int);
    assert(key.take(f1.len() as int) =~= f1);

    // The first `-` of the remainder ends the end field.
    let rest = key.skip(f1.len() as int + 1);
    assert(rest =~= f2 + seq![DASH] + tsf);
    assert forall|j: int| 0 <= j < f2.len() implies rest[j] != DASH by {
        assert(rest[j] == f2[j]);
    }
    assert(rest[f2.len() as int] == DASH);
    lemma_first_idx_is(rest, DASH, f2.len() as int);
    assert(rest.take(f2.len() as int) =~= f2);
}

/// Strict lexicographic order on byte strings: the two agree up to some
/// position where `s` holds the smaller byte.
pub open spec fn lex_less(s: Seq<u8>, t: Seq<u8>) -> bool {
    exists|i: int|
        0 <= i < s.len() && i < t.len() && (#[trigger] s[i]) < t[i] && (forall|j: int|
            0 <= j < i ==> s[j] == t[j])
}

/// Zero-padding to a fixed width preserves numeric order in the
/// lexicographic order of the rendered digits.
pub proof fn lemma_pad_digits_order(a: nat, b: nat, n: nat)
    requires
        a < b,
        b < pow10(n),
    ensures
        lex_less(pad_digits(a, n), pad_digits(b, n)),
    decreases n,
{
    if n == 0 {
        assert(false);
    } else {
        lemma_fundamental_div_mod(a as int, 10);
        lemma_fundamental_div_mod(b as int, 10);
        lemma_mod_bound(a as int, 10);
        lemma_mod_bound(b as int, 10);
        lemma_div_pos_is_pos(a as int, 10);
        lemma_div_pos_is_pos(b as int, 10);
        let sa = pad_digits(a / 10, (n - 1) as nat);
        let sb = pad_digits(b / 10, (n - 1) as nat);
        lemma_pad_digits_len(a / 10, (n - 1) as nat);
        lemma_pad_digits_len(b / 10, (n - 1) as nat);
        let pa = sa.push((ZERO + a % 10) as u8);
        let pb = sb.push((ZERO + b % 10) as u8);
        if a / 10 == b / 10 {
            assert(a % 10 < b % 10);
            assert(pa[n - 1] < pb[n - 1]);
            assert(forall|j: int| 0 <= j < n - 1 ==> pa[j] == pb[j]);
            assert(lex_less(pa, pb));
        } else {
            assert(a / 10 < b / 10) by {
                vstd::arithmetic::div_mod::lemma_div_is_ordered(a as int, b as int, 10);
            };
            assert(b / 10 < pow10((n - 1) as nat)) by {
                if b / 10 >= pow10((n - 1) as nat) {
                    assert(10 * (b / 10) >= 10 * pow10((n - 1) as nat)) by (nonlinear_arith)
                        requires
                            b / 10 >= pow10((n - 1) as nat),
                    ;
                }
            };
            lemma_pad_digits_order(a / 10, b / 10, (n - 1) as nat);
            let i = choose|i: int|
                0 <= i < sa.len() && i < sb.len() && (#[trigger] sa[i]) < sb[i] && (forall|j: int|
                    0 <= j < i ==> sa[j] == sb[j]);
            assert(pa[i] < pb[i]);
            assert(forall|j: int| 0 <= j < i ==> pa[j] == pb[j]);
            assert(lex_less(pa, pb));
        }
    }
}

/// Lexicographic file-name ordering coincides with `start_frame_no`
/// ordering while the zero-padded width holds, that is for start frames
/// below `10^19`: a directory listing sorted by name is sorted by start
/// frame.
pub proof fn lemma_name_order(start1: u64, end1: u64, ts1: i64, start2: u64, end2: u64, ts2: i64)
    requires
        start1 < start2,
        start2 < POW19,
    ensures
        lex_less(
            spec_segment_file_name(start1, end1, ts1),
            spec_segment_file_name(start2, end2, ts2),
        ),
{
    lemma_pow10_values();
    lemma_pad_digits_order(start1 as nat, start2 as nat, 19);
    let f1 = field_digits(start1);
    let f2 = field_digits(start2);
    lemma_pad_digits_len(start1 as nat, 19);
    lemma_pad_digits_len(start2 as nat, 19);
    let n1 = spec_segment_file_name(start1, end1, ts1);
    let n2 = spec_segment_file_name(start2, end2, ts2);
    let i = choose|i: int|
        0 <= i < f1.len() && i < f2.len() && (#[trigger] f1[i]) < f2[i] && (forall|j: int|
            0 <= j < i ==> f1[j] == f2[j]);
    assert(n1[i] == f1[i]);
    assert(n2[i] == f2[i]);
    assert(forall|j: int| 0 <= j < i ==> n1[j] == n2[j]);
    assert(n1[i] < n2[i]);
    assert(lex_less(n1, n2));
}

/// Renders `v mod 10^n` as exactly `n` decimal digits appended to `out`.
fn push_pad_digits(out: &mut Vec<u8>, v: u64, n: usize)
    ensures
        final(out)@ == old(out)@ + pad_digits(v as nat, n as nat),
    decreases n,
{
    if n == 0 {
        assert(out@ =~= old(out)@ + pad_digits(v as nat, 0));
    } else {
        push_pad_digits(out, v / 10, n - 1);
        let d: u8 = ZERO + (v % 10) as u8;
        out.push(d);
        assert(out@ =~= old(out)@ + pad_digits(v as nat, n as nat));
    }
}

/// Appends the rendering of one frame-number field.
fn push_field(out: &mut Vec<u8>, v: u64)
    ensures
        final(out)@ == old(out)@ + field_digits(v),
{
    if v < POW19 {
        push_pad_digits(out, v, 19);
    } else {
        push_pad_digits(out, v, 20);
    }
}

/// Appends the rendering of the creation timestamp.
fn push_ts(out: &mut Vec<u8>, t: i64)
    ensures
        final(out)@ == old(out)@ + ts_digits(t),
{
    if t >= 0 {
        push_pad_digits(out, t as u64, 19);
    } else {
        out.push(DASH);
        let neg: i128 = -(t as i128);
        assert(0 < neg <= 0x8000_0000_0000_0000);
        let m: u64 = neg as u64;
        assert(m == -(t as int));
        if m < POW18 {
            push_pad_digits(out, m, 18);
            assert(out@ =~= old(out)@ + ts_digits(t));
        } else {
            push_pad_digits(out, m, 19);
            assert(out@ =~= old(out)@ + ts_digits(t));
        }
    }
}

/// Renders the file name under which a segment with frame range
/// `[start, end]`, created at `created_at` unix seconds, is stored.
pub fn segment_file_name(start: u64, end: u64, created_at: i64) -> (r: Vec<u8>)
    ensures
        r@ == spec_segment_file_name(start, end, created_at),
{
    let mut out: Vec<u8> = Vec::new();
    push_field(&mut out, start);
    out.push(DASH);
    push_field(&mut out, end);
    out.push(DASH);
    push_ts(&mut out, created_at);
    out.push(DOT);
    out.push(115);
    out.push(101);
    out.push(103);
    out.push(109);
    out.push(101);
    out.push(110);
    out.push(116);
    assert(out@ =~= spec_segment_file_name(start, end, created_at));
    out
}

/// Finds the first occurrence of `b` in `s[from..]`, or `s.len()`.
fn scan_byte(s: &Vec<u8>, from: usize, b: u8) -> (r: usize)
    requires
        from <= s@.len(),
        forall|j: int| 0 <= j < from ==> s@[j] != b,
    ensures
        r == first_idx(s@, b),
{
    let mut i = from;
    while i < s.len()
        invariant
            from <= i <= s@.len(),
            forall|j: int| 0 <= j < i ==> s@[j] != b,
        decreases s@.len() - i,
    {
        if s[i] == b {
            proof {
                lemma_first_idx_is(s@, b, i as int);
            }
            return i;
        }
        i += 1;
    }
    proof {
        lemma_first_idx_is(s@, b, s@.len() as int);
    }
    i
}

/// Growth of a digit string never shrinks its value.
proof fn lemma_digits_value_prefix(s: Seq<u8>, k: int)
    requires
        all_digits(s),
        0 <= k <= s.len(),
    ensures
        digits_value(s) >= digits_value(s.take(k)),
        digits_value(s) >= 0,
    decreases s.len(),
{
    if s.len() == 0 {
    } else {
        lemma_digits_value_prefix(s.drop_last(), if k < s.len() { k } else { k - 1 });
        if k < s.len() {
            assert(s.take(k) =~= s.drop_last().take(k));
        } else {
            assert(s.take(k) =~= s);
        }
    }
}

/// Parses the digit string `s[from..to]` as a `u64`, reporting `None` on an
/// empty string, a non-digit byte, or overflow.
fn parse_u64_digits(s: &Vec<u8>, from: usize, to: usize) -> (r: Option<u64>)
    requires
        from <= to <= s@.len(),
    ensures
        match r {
            Some(v) => valid_u64_digits(s@.subrange(from as int, to as int)) && v == digits_value(
                s@.subrange(from as int, to as int),
            ),
            None => !valid_u64_digits(s@.subrange(from as int, to as int)),
        },
{
    if from == to {
        assert(s@.subrange(from as int, to as int).len() == 0);
        return None;
    }
    let ghost whole = s@.subrange(from as int, to as int);
    let mut acc: u64 = 0;
    let mut i = from;
    while i < to
        invariant
            from <= i <= to <= s@.len(),
            all_digits(s@.subrange(from as int, i as int)),
            acc == digits_value(s@.subrange(from as int, i as int)),
            whole == s@.subrange(from as int, to as int),
        decreases to - i,
    {
        let b = s[i];
        let ghost pre = s@.subrange(from as int, i as int);
        let ghost cur = s@.subrange(from as int, i as int + 1);
        if b < ZERO || b > 57 {
            assert(cur[i - from] == b);
            assert(!all_digits(cur));
            proof {
                if all_digits(whole) {
                    assert(whole[i - from] == b);
                }
            }
            return None;
        }
        assert(cur.drop_last() =~= pre);
        assert(cur.last() == b);
        let next = match acc.checked_mul(10) {
            Some(m) => m.checked_add((b - ZERO) as u64),
            None => None,
        };
        match next {
            Some(v) => {
                acc = v;
            },
            None => {
                // The value so far already overflows a `u64`; any longer
                // digit string only grows it.
                proof {
                    assert(digits_value(cur) == acc * 10 + b - ZERO);
                    assert(digits_value(cur) > u64::MAX);
                    if valid_u64_digits(whole) {
                        assert(all_digits(whole));
                        assert(cur =~= whole.take(i - from + 1));
                        lemma_digits_value_prefix(whole, i - from + 1);
                    }
                }
                return None;
            },
        }
        i += 1;
    }
    assert(s@.subrange(from as int, i as int) =~= whole);
    Some(acc)
}

/// Parses a segment file name, recovering the frame range `(start, end)`
/// encoded in it. The name up to the first `.` is split on `-`; the first
/// two components must be non-empty decimal numbers that fit a `u64`, or
/// the name is reported malformed.
pub fn parse_segment_file_name(name: &Vec<u8>) -> (r: crate::Result<(u64, u64)>)
    ensures
        match r {
            Ok(p) => spec_parse_name(name@) == Some(p),
            Err(e) => spec_parse_name(name@) is None && e is Integrity,
        },
{
    let key_end = scan_byte(name, 0, DOT);
    let ghost key = name@.take(first_idx(name@, DOT));
    proof {
        lemma_first_idx_bounds(name@, DOT);
    }
    let d1 = scan_byte_to(name, 0, key_end, DASH);
    proof {
        lemma_scan_prefix(name@, key, key_end as int, 0, d1 as int, DASH);
    }
    if d1 == key_end {
        return Err(Error::Integrity(String::new()));
    }
    let d2 = scan_byte_to(name, d1 + 1, key_end, DASH);
    let ghost rest = key.skip(d1 + 1);
    proof {
        lemma_scan_skip(name@, key, key_end as int, d1 as int + 1, d2 as int, DASH);
    }
    let c1 = parse_u64_digits(name, 0, d1);
    let c2 = parse_u64_digits(name, d1 + 1, d2);
    proof {
        assert(key.take(d1 as int) =~= name@.subrange(0, d1 as int));
        assert(rest.take(first_idx(rest, DASH)) =~= name@.subrange(d1 as int + 1, d2 as int));
    }
    match (c1, c2) {
        (Some(a), Some(b)) => Ok((a, b)),
        _ => Err(Error::Integrity(String::new())),
    }
}

/// Finds the first occurrence of `b` in `s[from..to]`, or `to`.
fn scan_byte_to(s: &Vec<u8>, from: usize, to: usize, b: u8) -> (r: usize)
    requires
        from <= to <= s@.len(),
    ensures
        from <= r <= to,
        r < to ==> s@[r as int] == b,
        forall|j: int| from <= j < r ==> s@[j] != b,
{
    let mut i = from;
    while i < to
        invariant
            from <= i <= to <= s@.len(),
            forall|j: int| from <= j < i ==> s@[j] != b,
        decreases to - i,
    {
        if s[i] == b {
            return i;
        }
        i += 1;
    }
    i
}

/// A scan of the raw name over `[0, key_end)` finds the first byte of the
/// key, the name's prefix before its first `.`.
proof fn lemma_scan_prefix(s: Seq<u8>, key: Seq<u8>, key_end: int, from: int, r: int, b: u8)
    requires
        key_end == first_idx(s, DOT),
        0 <= key_end <= s.len(),
        key == s.take(key_end),
        from == 0,
        from <= r <= key_end,
        r < key_end ==> s[r] == b,
        forall|j: int| from <= j < r ==> s[j] != b,
    ensures
        first_idx(key, b) == r,
{
    lemma_first_idx_is(key, b, r);
}

/// A scan of the raw name over `[d, key_end)` finds the first byte of the
/// key's remainder after position `d`.
proof fn lemma_scan_skip(s: Seq<u8>, key: Seq<u8>, key_end: int, d: int, r: int, b: u8)
    requires
        key_end == first_idx(s, DOT),
        0 <= key_end <= s.len(),
        key == s.take(key_end),
        0 <= d <= key_end,
        d <= r <= key_end,
        r < key_end ==> s[r] == b,
        forall|j: int| d <= j < r ==> s[j] != b,
    ensures
        first_idx(key.skip(d), b) == r - d,
{
    let rest = key.skip(d);
    assert forall|j: int| 0 <= j < r - d implies rest[j] != b by {
        assert(rest[j] == s[j + d]);
    }
    if r - d < rest.len() {
        assert(rest[r - d] == s[r]);
    }
    lemma_first_idx_is(rest, b, r - d);
}

} // verus!
