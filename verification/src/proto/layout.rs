//! Where the fields of a message stand among its bytes.
//!
//! The laws here speak of bytes and their positions alone. They fix the wire
//! for a peer that was written by someone else: a message that merely reads
//! back what it wrote could be written in any order.

use vstd::prelude::*;

use crate::proto::error::ProtoError;
use crate::proto::wire;

pub mod drawing;
pub mod handshake;
pub mod lists;
pub mod numbers;
pub mod records;

verus! {

/// The worth of the digit at place `n` in base 256.
pub open spec fn place(n: nat) -> nat
    decreases n,
{
    if n == 0 {
        1
    } else {
        256 * place((n - 1) as nat)
    }
}

/// The number that `n` bytes from `i` on spell in base 256, lowest digit first.
pub open spec fn value(s: Seq<u8>, i: int, n: nat) -> nat
    decreases n,
{
    if n == 0 {
        0
    } else {
        s[i] as nat + 256 * value(s, i + 1, (n - 1) as nat)
    }
}

/// The number that `n` bytes from `i` on spell in two's complement, lowest
/// digit first: the top bit of the last byte counts as negative.
pub open spec fn signed_value(s: Seq<u8>, i: int, n: nat) -> int {
    if s[i + n - 1] >= 128 {
        value(s, i, n) - place(n)
    } else {
        value(s, i, n) as int
    }
}

/// The number that `n` bytes from `i` on spell in base 256, highest digit first.
pub open spec fn big_value(s: Seq<u8>, i: int, n: nat) -> nat
    decreases n,
{
    if n == 0 {
        0
    } else {
        256 * big_value(s, i, (n - 1) as nat) + s[i + n - 1] as nat
    }
}

/// Numbers are read from their bytes lowest digit first, in two's complement
/// where they have a sign, and the numbers of the image headers highest digit
/// first.
pub proof fn numbers_are_read_in_base_256(s: Seq<u8>, i: int)
    ensures
        wire::u16_at(s, i) == value(s, i, 2),
        wire::u32_at(s, i) == value(s, i, 4),
        wire::u64_at(s, i) == value(s, i, 8),
        wire::i16_at(s, i) == signed_value(s, i, 2),
        wire::i32_at(s, i) == signed_value(s, i, 4),
        wire::i64_at(s, i) == signed_value(s, i, 8),
        wire::be32_at(s, i) == big_value(s, i, 4),
        wire::be64_at(s, i) == big_value(s, i, 8),
{
    reveal_with_fuel(value, 9);
    reveal_with_fuel(place, 9);
    reveal_with_fuel(big_value, 9);
    assert(s[i + 1 + 1] == s[i + 2] && s[i + 1 + 1 + 1] == s[i + 3]);
    assert(value(s, i, 4) == s[i] + 256 * s[i + 1] + 65536 * s[i + 2] + 16777216 * s[i + 3]);
    assert(value(s, i + 4, 4) == s[i + 4] + 256 * s[i + 5] + 65536 * s[i + 6] + 16777216 * s[i
        + 7]);
    assert(value(s, i, 8) == value(s, i, 4) + 4294967296 * value(s, i + 4, 4));
    assert(big_value(s, i, 8) == 4294967296 * big_value(s, i, 4) + big_value(s, i + 4, 4));
}

pub(crate) proof fn lemma_u16(s: Seq<u8>, i: int)
    ensures
        wire::u16_at(s, i) == value(s, i, 2),
{
    numbers_are_read_in_base_256(s, i);
}

pub(crate) proof fn lemma_u32(s: Seq<u8>, i: int)
    ensures
        wire::u32_at(s, i) == value(s, i, 4),
{
    numbers_are_read_in_base_256(s, i);
}

pub(crate) proof fn lemma_u64(s: Seq<u8>, i: int)
    ensures
        wire::u64_at(s, i) == value(s, i, 8),
{
    numbers_are_read_in_base_256(s, i);
}

pub(crate) proof fn lemma_i16(s: Seq<u8>, i: int)
    ensures
        wire::i16_at(s, i) == signed_value(s, i, 2),
{
    numbers_are_read_in_base_256(s, i);
}

pub(crate) proof fn lemma_i32(s: Seq<u8>, i: int)
    ensures
        wire::i32_at(s, i) == signed_value(s, i, 4),
{
    numbers_are_read_in_base_256(s, i);
}

pub(crate) proof fn lemma_i64(s: Seq<u8>, i: int)
    ensures
        wire::i64_at(s, i) == signed_value(s, i, 8),
{
    numbers_are_read_in_base_256(s, i);
}

pub(crate) proof fn lemma_be32(s: Seq<u8>, i: int)
    ensures
        wire::be32_at(s, i) == big_value(s, i, 4),
{
    numbers_are_read_in_base_256(s, i);
}

pub(crate) proof fn lemma_be64(s: Seq<u8>, i: int)
    ensures
        wire::be64_at(s, i) == big_value(s, i, 8),
{
    numbers_are_read_in_base_256(s, i);
}

/// Numbers are written lowest digit first, in as many bytes as they have, and
/// those of the image headers highest digit first.
pub proof fn numbers_are_written_in_base_256(
    a: u16,
    b: u32,
    c: u64,
    d: i16,
    e: i32,
    f: i64,
)
    ensures
        wire::le16(a).len() == 2 && value(wire::le16(a), 0, 2) == a,
        wire::le32(b).len() == 4 && value(wire::le32(b), 0, 4) == b,
        wire::le64(c).len() == 8 && value(wire::le64(c), 0, 8) == c,
        wire::le16s(d).len() == 2 && signed_value(wire::le16s(d), 0, 2) == d,
        wire::le32s(e).len() == 4 && signed_value(wire::le32s(e), 0, 4) == e,
        wire::le64s(f).len() == 8 && signed_value(wire::le64s(f), 0, 8) == f,
        wire::be32(b).len() == 4 && big_value(wire::be32(b), 0, 4) == b,
        wire::be64(c).len() == 8 && big_value(wire::be64(c), 0, 8) == c,
{
    wire::lemma_lengths();
    numbers_are_read_in_base_256(wire::le16(a), 0);
    numbers_are_read_in_base_256(wire::le32(b), 0);
    numbers_are_read_in_base_256(wire::le64(c), 0);
    numbers_are_read_in_base_256(wire::le16s(d), 0);
    numbers_are_read_in_base_256(wire::le32s(e), 0);
    numbers_are_read_in_base_256(wire::le64s(f), 0);
    numbers_are_read_in_base_256(wire::be32(b), 0);
    numbers_are_read_in_base_256(wire::be64(c), 0);
    assert(wire::le16(a).subrange(0, 2) =~= wire::le16(a));
    assert(wire::le32(b).subrange(0, 4) =~= wire::le32(b));
    assert(wire::le64(c).subrange(0, 8) =~= wire::le64(c));
    assert(wire::le16s(d).subrange(0, 2) =~= wire::le16s(d));
    assert(wire::le32s(e).subrange(0, 4) =~= wire::le32s(e));
    assert(wire::le64s(f).subrange(0, 8) =~= wire::le64s(f));
    assert(wire::be32(b).subrange(0, 4) =~= wire::be32(b));
    assert(wire::be64(c).subrange(0, 8) =~= wire::be64(c));
    wire::u16_at_le16(wire::le16(a), 0, a);
    wire::u32_at_le32(wire::le32(b), 0, b);
    wire::u64_at_le64(wire::le64(c), 0, c);
    wire::i16_at_le16s(wire::le16s(d), 0, d);
    wire::i32_at_le32s(wire::le32s(e), 0, e);
    wire::i64_at_le64s(wire::le64s(f), 0, f);
    wire::be32_at_be32(wire::be32(b), 0, b);
    wire::be64_at_be64(wire::be64(c), 0, c);
}

/// The bytes that the fields before the `k`-th take.
pub open spec fn taken(widths: Seq<int>, k: int) -> int
    decreases k,
{
    if k <= 0 {
        0
    } else {
        taken(widths, k - 1) + widths[k - 1]
    }
}

proof fn lemma_taken_grows(widths: Seq<int>, i: int, k: int)
    requires
        0 <= i <= k <= widths.len(),
        forall|j: int| 0 <= j < widths.len() ==> #[trigger] widths[j] > 0,
    ensures
        taken(widths, i) <= taken(widths, k),
    decreases k,
{
    if i < k {
        lemma_taken_grows(widths, i, k - 1);
    }
}

proof fn lemma_short_from(widths: Seq<int>, i: int, all: int)
    requires
        0 <= i <= widths.len(),
        forall|j: int| 0 <= j < widths.len() ==> 0 < #[trigger] widths[j] <= 8,
        taken(widths, i) <= all <= usize::MAX,
    ensures
        match wire::short_from(widths, i, all - taken(widths, i)) {
            None => taken(widths, widths.len() as int) <= all,
            Some(e) => exists|k: int|
                {
                    &&& 0 <= k < widths.len()
                    &&& #[trigger] taken(widths, k) <= all < taken(widths, k + 1)
                    &&& e == ProtoError::Short {
                        need: widths[k] as usize,
                        have: (all - taken(widths, k)) as usize,
                    }
                },
        },
    decreases widths.len() - i,
{
    if i < widths.len() {
        if all - taken(widths, i) < widths[i] {
            assert(taken(widths, i) <= all < taken(widths, i + 1));
        } else {
            assert(taken(widths, i + 1) == taken(widths, i) + widths[i]);
            lemma_short_from(widths, i + 1, all);
        }
    }
}

/// A record is there where all of its bytes are. Of one that is cut short the
/// error tells of the first field that is not whole: how many bytes it takes,
/// and how many of them there are.
pub proof fn records_are_cut_at_the_first_missing_field(widths: Seq<int>, have: int)
    requires
        forall|j: int| 0 <= j < widths.len() ==> 0 < #[trigger] widths[j] <= 8,
        0 <= have <= usize::MAX,
    ensures
        wire::short_in(widths, have) is None <==> taken(widths, widths.len() as int) <= have,
        wire::short_in(widths, have) matches Some(e) ==> exists|k: int|
            {
                &&& 0 <= k < widths.len()
                &&& #[trigger] taken(widths, k) <= have < taken(widths, k + 1)
                &&& e == ProtoError::Short {
                    need: widths[k] as usize,
                    have: (have - taken(widths, k)) as usize,
                }
            },
{
    lemma_short_from(widths, 0, have);
    match wire::short_in(widths, have) {
        None => {},
        Some(e) => {
            let k = choose|k: int|
                {
                    &&& 0 <= k < widths.len()
                    &&& #[trigger] taken(widths, k) <= have < taken(widths, k + 1)
                    &&& e == ProtoError::Short {
                        need: widths[k] as usize,
                        have: (have - taken(widths, k)) as usize,
                    }
                };
            lemma_taken_grows(widths, k + 1, widths.len() as int);
        },
    }
}

} // verus!
