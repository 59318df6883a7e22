//! Integers as bytes, in both byte orders, and where a packed record runs
//! out of input.

use vstd::prelude::*;

use crate::proto::error::ProtoError;

verus! {

/// The little-endian `u16` that starts at `i`.
pub open spec fn u16_at(s: Seq<u8>, i: int) -> u16 {
    (s[i] + 256 * s[i + 1]) as u16
}

/// The little-endian `u32` that starts at `i`.
pub open spec fn u32_at(s: Seq<u8>, i: int) -> u32 {
    (s[i] + 256 * s[i + 1] + 65536 * s[i + 2] + 16777216 * s[i + 3]) as u32
}

/// The little-endian `u64` that starts at `i`.
pub open spec fn u64_at(s: Seq<u8>, i: int) -> u64 {
    (u32_at(s, i) + 4294967296 * u32_at(s, i + 4)) as u64
}

/// The big-endian `u32` that starts at `i`.
pub open spec fn be32_at(s: Seq<u8>, i: int) -> u32 {
    (s[i + 3] + 256 * s[i + 2] + 65536 * s[i + 1] + 16777216 * s[i]) as u32
}

/// The big-endian `u64` that starts at `i`.
pub open spec fn be64_at(s: Seq<u8>, i: int) -> u64 {
    (be32_at(s, i + 4) + 4294967296 * be32_at(s, i)) as u64
}

/// A `u16` read as two's complement.
pub open spec fn signed16(v: u16) -> i16 {
    if v < 32768 {
        v as i16
    } else {
        (v - 65536) as i16
    }
}

/// A `u32` read as two's complement.
pub open spec fn signed32(v: u32) -> i32 {
    if v < 2147483648 {
        v as i32
    } else {
        (v - 4294967296) as i32
    }
}

/// A `u64` read as two's complement.
pub open spec fn signed64(v: u64) -> i64 {
    if v < 9223372036854775808 {
        v as i64
    } else {
        (v - 18446744073709551616) as i64
    }
}

/// The two's complement bits of an `i16`.
pub open spec fn unsigned16(v: i16) -> u16 {
    if v >= 0 {
        v as u16
    } else {
        (v + 65536) as u16
    }
}

/// The two's complement bits of an `i32`.
pub open spec fn unsigned32(v: i32) -> u32 {
    if v >= 0 {
        v as u32
    } else {
        (v + 4294967296) as u32
    }
}

/// The two's complement bits of an `i64`.
pub open spec fn unsigned64(v: i64) -> u64 {
    if v >= 0 {
        v as u64
    } else {
        (v + 18446744073709551616) as u64
    }
}

/// The little-endian `i16` that starts at `i`.
pub open spec fn i16_at(s: Seq<u8>, i: int) -> i16 {
    signed16(u16_at(s, i))
}

/// The little-endian `i32` that starts at `i`.
pub open spec fn i32_at(s: Seq<u8>, i: int) -> i32 {
    signed32(u32_at(s, i))
}

/// The little-endian `i64` that starts at `i`.
pub open spec fn i64_at(s: Seq<u8>, i: int) -> i64 {
    signed64(u64_at(s, i))
}

/// The two bytes of a `u16`, least significant first.
pub open spec fn le16(v: u16) -> Seq<u8> {
    seq![(v % 256) as u8, (v / 256) as u8]
}

/// The four bytes of a `u32`, least significant first.
pub open spec fn le32(v: u32) -> Seq<u8> {
    seq![
        (v % 256) as u8,
        (v / 256 % 256) as u8,
        (v / 65536 % 256) as u8,
        (v / 16777216) as u8,
    ]
}

/// The eight bytes of a `u64`, least significant first.
pub open spec fn le64(v: u64) -> Seq<u8> {
    le32((v % 4294967296) as u32) + le32((v / 4294967296) as u32)
}

/// The four bytes of a `u32`, most significant first.
pub open spec fn be32(v: u32) -> Seq<u8> {
    seq![
        (v / 16777216) as u8,
        (v / 65536 % 256) as u8,
        (v / 256 % 256) as u8,
        (v % 256) as u8,
    ]
}

/// The eight bytes of a `u64`, most significant first.
pub open spec fn be64(v: u64) -> Seq<u8> {
    be32((v / 4294967296) as u32) + be32((v % 4294967296) as u32)
}

/// The two bytes of an `i16`, least significant first.
pub open spec fn le16s(v: i16) -> Seq<u8> {
    le16(unsigned16(v))
}

/// The four bytes of an `i32`, least significant first.
pub open spec fn le32s(v: i32) -> Seq<u8> {
    le32(unsigned32(v))
}

/// The eight bytes of an `i64`, least significant first.
pub open spec fn le64s(v: i64) -> Seq<u8> {
    le64(unsigned64(v))
}

/// How reading fields of the given widths, from the `i`-th on, ends on `have`
/// bytes: `None` when all of them are there, else the error of the first one
/// that is not.
pub open spec fn short_from(widths: Seq<int>, i: int, have: int) -> Option<ProtoError>
    decreases widths.len() - i,
{
    if i >= widths.len() {
        None
    } else if have < widths[i] {
        Some(ProtoError::Short { need: widths[i] as usize, have: have as usize })
    } else {
        short_from(widths, i + 1, have - widths[i])
    }
}

/// How reading fields of the given widths ends on `have` bytes.
pub open spec fn short_in(widths: Seq<int>, have: int) -> Option<ProtoError> {
    short_from(widths, 0, have)
}

/// How many bytes each number takes.
pub proof fn lemma_lengths()
    ensures
        forall|v: u16| (#[trigger] le16(v)).len() == 2,
        forall|v: u32| (#[trigger] le32(v)).len() == 4,
        forall|v: u64| (#[trigger] le64(v)).len() == 8,
        forall|v: i16| (#[trigger] le16s(v)).len() == 2,
        forall|v: i32| (#[trigger] le32s(v)).len() == 4,
        forall|v: i64| (#[trigger] le64s(v)).len() == 8,
        forall|v: u32| (#[trigger] be32(v)).len() == 4,
        forall|v: u64| (#[trigger] be64(v)).len() == 8,
{
}

/// A number is the sum of its bytes, each in its place.
proof fn lemma_split32(v: u32)
    ensures
        v % 256 < 256,
        v / 256 % 256 < 256,
        v / 65536 % 256 < 256,
        v / 16777216 < 256,
        v == v % 256 + 256 * (v / 256 % 256) + 65536 * (v / 65536 % 256) + 16777216 * (v
            / 16777216),
{
    assert(v % 256 < 256 && v / 256 % 256 < 256 && v / 65536 % 256 < 256 && v / 16777216 < 256
        && v == v % 256 + 256 * (v / 256 % 256) + 65536 * (v / 65536 % 256) + 16777216 * (v
        / 16777216)) by (bit_vector);
}

/// Sequences one after another, however they are grouped.
pub proof fn lemma_regroup(a: Seq<u8>, b: Seq<u8>, c: Seq<u8>, d: Seq<u8>)
    ensures
        a + (b + c) + d == a + b + (c + d),
        a + b + (c + d) == (a + b) + (c + d),
        a + b + c == a + (b + c),
{
    assert(a + (b + c) + d =~= a + b + (c + d));
    assert(a + b + c =~= a + (b + c));
}

/// A part of a sequence's left half.
pub broadcast proof fn lemma_sub_left(x: Seq<u8>, y: Seq<u8>, i: int, j: int)
    requires
        0 <= i <= j <= x.len(),
    ensures
        #[trigger] (x + y).subrange(i, j) == x.subrange(i, j),
{
    assert((x + y).subrange(i, j) =~= x.subrange(i, j));
}

/// A part of a sequence's right half.
pub broadcast proof fn lemma_sub_right(x: Seq<u8>, y: Seq<u8>, i: int, j: int)
    requires
        x.len() <= i <= j <= x.len() + y.len(),
    ensures
        #[trigger] (x + y).subrange(i, j) == y.subrange(i - x.len(), j - x.len()),
{
    assert((x + y).subrange(i, j) =~= y.subrange(i - x.len(), j - x.len()));
}

/// The whole of a sequence.
pub broadcast proof fn lemma_sub_all(x: Seq<u8>, i: int, j: int)
    requires
        i == 0,
        j == x.len(),
    ensures
        #[trigger] x.subrange(i, j) == x,
{
    assert(x.subrange(i, j) =~= x);
}

pub broadcast group group_parts {
    lemma_sub_left,
    lemma_sub_right,
    lemma_sub_all,
}

/// Reading a `u16` gives back the one whose bytes were written, wherever they stand.
pub proof fn u16_at_le16(s: Seq<u8>, i: int, v: u16)
    requires
        0 <= i,
        i + 2 <= s.len(),
        s.subrange(i, i + 2) == le16(v),
    ensures
        u16_at(s, i) == v,
{
    assert(s.subrange(i, i + 2)[0] == s[i]);
    assert(s.subrange(i, i + 2)[1] == s[i + 1]);
}

/// Reading a `u32` gives back the one whose bytes were written, wherever they stand.
pub proof fn u32_at_le32(s: Seq<u8>, i: int, v: u32)
    requires
        0 <= i,
        i + 4 <= s.len(),
        s.subrange(i, i + 4) == le32(v),
    ensures
        u32_at(s, i) == v,
{
    lemma_split32(v);
    assert(s.subrange(i, i + 4)[0] == s[i]);
    assert(s.subrange(i, i + 4)[1] == s[i + 1]);
    assert(s.subrange(i, i + 4)[2] == s[i + 2]);
    assert(s.subrange(i, i + 4)[3] == s[i + 3]);
}

/// Reading a `u64` gives back the one whose bytes were written, wherever they stand.
pub proof fn u64_at_le64(s: Seq<u8>, i: int, v: u64)
    requires
        0 <= i,
        i + 8 <= s.len(),
        s.subrange(i, i + 8) == le64(v),
    ensures
        u64_at(s, i) == v,
{
    assert(s.subrange(i, i + 4) =~= s.subrange(i, i + 8).subrange(0, 4));
    assert(le64(v).subrange(0, 4) =~= le32((v % 4294967296) as u32));
    assert(s.subrange(i + 4, i + 8) =~= s.subrange(i, i + 8).subrange(4, 8));
    assert(le64(v).subrange(4, 8) =~= le32((v / 4294967296) as u32));
    u32_at_le32(s, i, (v % 4294967296) as u32);
    u32_at_le32(s, i + 4, (v / 4294967296) as u32);
}

/// Reading an `i16` gives back the one whose bytes were written.
pub proof fn i16_at_le16s(s: Seq<u8>, i: int, v: i16)
    requires
        0 <= i,
        i + 2 <= s.len(),
        s.subrange(i, i + 2) == le16s(v),
    ensures
        i16_at(s, i) == v,
{
    u16_at_le16(s, i, unsigned16(v));
}

/// Reading an `i32` gives back the one whose bytes were written.
pub proof fn i32_at_le32s(s: Seq<u8>, i: int, v: i32)
    requires
        0 <= i,
        i + 4 <= s.len(),
        s.subrange(i, i + 4) == le32s(v),
    ensures
        i32_at(s, i) == v,
{
    u32_at_le32(s, i, unsigned32(v));
}

/// Reading an `i64` gives back the one whose bytes were written.
pub proof fn i64_at_le64s(s: Seq<u8>, i: int, v: i64)
    requires
        0 <= i,
        i + 8 <= s.len(),
        s.subrange(i, i + 8) == le64s(v),
    ensures
        i64_at(s, i) == v,
{
    u64_at_le64(s, i, unsigned64(v));
}

/// Numbers read the same behind other bytes.
pub proof fn lemma_shifted(head: Seq<u8>, s: Seq<u8>, p: int)
    requires
        0 <= p,
    ensures
        p + 1 <= s.len() ==> (head + s)[head.len() + p] == s[p],
        p + 2 <= s.len() ==> u16_at(head + s, head.len() + p) == u16_at(s, p),
        p + 4 <= s.len() ==> u32_at(head + s, head.len() + p) == u32_at(s, p),
        p + 8 <= s.len() ==> u64_at(head + s, head.len() + p) == u64_at(s, p),
{
    let n = head.len() as int;
    assert(forall|k: int| 0 <= k < s.len() ==> #[trigger] (head + s)[n + k] == s[k]);
    if p + 2 <= s.len() {
        assert((head + s)[n + (p + 1)] == s[p + 1]);
    }
    if p + 4 <= s.len() {
        assert((head + s)[n + (p + 2)] == s[p + 2]);
        assert((head + s)[n + (p + 3)] == s[p + 3]);
    }
    if p + 8 <= s.len() {
        assert((head + s)[n + (p + 4)] == s[p + 4]);
        assert((head + s)[n + (p + 5)] == s[p + 5]);
        assert((head + s)[n + (p + 6)] == s[p + 6]);
        assert((head + s)[n + (p + 7)] == s[p + 7]);
    }
}

/// Reading a big-endian `u32` gives back the one whose bytes were written,
/// wherever they stand.
pub proof fn be32_at_be32(s: Seq<u8>, i: int, v: u32)
    requires
        0 <= i,
        i + 4 <= s.len(),
        s.subrange(i, i + 4) == be32(v),
    ensures
        be32_at(s, i) == v,
{
    lemma_split32(v);
    assert(s.subrange(i, i + 4)[0] == s[i]);
    assert(s.subrange(i, i + 4)[1] == s[i + 1]);
    assert(s.subrange(i, i + 4)[2] == s[i + 2]);
    assert(s.subrange(i, i + 4)[3] == s[i + 3]);
}

/// Reading a big-endian `u64` gives back the one whose bytes were written,
/// wherever they stand.
pub proof fn be64_at_be64(s: Seq<u8>, i: int, v: u64)
    requires
        0 <= i,
        i + 8 <= s.len(),
        s.subrange(i, i + 8) == be64(v),
    ensures
        be64_at(s, i) == v,
{
    assert(s.subrange(i, i + 4) =~= s.subrange(i, i + 8).subrange(0, 4));
    assert(be64(v).subrange(0, 4) =~= be32((v / 4294967296) as u32));
    assert(s.subrange(i + 4, i + 8) =~= s.subrange(i, i + 8).subrange(4, 8));
    assert(be64(v).subrange(4, 8) =~= be32((v % 4294967296) as u32));
    be32_at_be32(s, i, (v / 4294967296) as u32);
    be32_at_be32(s, i + 4, (v % 4294967296) as u32);
}

/// A cast between the signed and unsigned 16-bit integers keeps the bits.
pub proof fn signed16_cast(v: u16, w: i16)
    ensures
        v as i16 == signed16(v),
        w as u16 == unsigned16(w),
{
    assert(v as i16 == (if v < 32768 { v as int } else { v - 65536 })) by (bit_vector);
    assert(w as u16 == (if w >= 0 { w as int } else { w + 65536 })) by (bit_vector);
}

/// A cast between the signed and unsigned 32-bit integers keeps the bits.
pub proof fn signed32_cast(v: u32, w: i32)
    ensures
        v as i32 == signed32(v),
        w as u32 == unsigned32(w),
{
    assert(v as i32 == (if v < 2147483648 { v as int } else { v - 4294967296 })) by (bit_vector);
    assert(w as u32 == (if w >= 0 { w as int } else { w + 4294967296 })) by (bit_vector);
}

/// A cast between the signed and unsigned 64-bit integers keeps the bits.
pub proof fn signed64_cast(v: u64, w: i64)
    ensures
        v as i64 == signed64(v),
        w as u64 == unsigned64(w),
{
    assert(v as i64 == (if v < 9223372036854775808 { v as int } else { v
        - 18446744073709551616 })) by (bit_vector);
    assert(w as u64 == (if w >= 0 { w as int } else { w + 18446744073709551616 })) by (bit_vector);
}

} // verus!
