//! Primitive types shared across SPICE messages.

use vstd::prelude::*;
use vstd::slice::slice_subrange;

use crate::proto::error::{ProtoError, Result};
use crate::proto::wire;

verus! {

/// Cursor of a little-endian byte stream. Tracks how many bytes have been
/// consumed so message-body parsers can be composed linearly.
pub struct Reader<'a> {
    buf: &'a [u8],
    pos: usize,
}

impl<'a> Reader<'a> {
    #[verifier::type_invariant]
    spec fn in_bounds(self) -> bool {
        self.pos <= self.buf@.len()
    }

    /// The whole input, read or not.
    pub closed spec fn input(self) -> Seq<u8> {
        self.buf@
    }

    /// How many bytes have been read.
    pub closed spec fn at(self) -> int {
        self.pos as int
    }

    /// What is still to be read.
    pub open spec fn rest(self) -> Seq<u8> {
        self.input().skip(self.at())
    }

    /// Reading `n` more bytes leads from `before` to `self`.
    pub open spec fn advanced(self, before: Self, n: int) -> bool {
        &&& self.input() == before.input()
        &&& self.at() == before.at() + n
        &&& 0 <= before.at() <= self.at() <= self.input().len() <= usize::MAX
    }

    pub fn new(buf: &'a [u8]) -> (r: Self)
        ensures
            r.input() == buf@,
            r.at() == 0,
            buf@.len() <= usize::MAX,
    {
        let _len: usize = buf.len();
        Self { buf, pos: 0 }
    }

    pub fn remaining(&self) -> (n: usize)
        ensures
            n == self.rest().len(),
            n == self.input().len() - self.at(),
    {
        proof {
            use_type_invariant(self);
        }
        self.buf.len() - self.pos
    }

    pub fn position(&self) -> (n: usize)
        ensures
            n == self.at(),
    {
        self.pos
    }

    fn take(&mut self, n: usize) -> (r: Result<&'a [u8]>)
        ensures
            match r {
                Ok(b) => {
                    &&& old(self).at() + n <= old(self).input().len()
                    &&& b@ == old(self).input().subrange(old(self).at(), old(self).at() + n)
                    &&& final(self).advanced(*old(self), n as int)
                },
                Err(e) => {
                    &&& old(self).input().len() < old(self).at() + n
                    &&& e == (ProtoError::Short {
                        need: n,
                        have: (old(self).input().len() - old(self).at()) as usize,
                    })
                    &&& final(self).advanced(*old(self), 0)
                },
            },
    {
        proof {
            use_type_invariant(&*self);
        }
        let len: usize = self.buf.len();
        let have: usize = len - self.pos;
        if have < n {
            return Err(ProtoError::Short { need: n, have });
        }
        let out = slice_subrange(self.buf, self.pos, self.pos + n);
        self.pos = self.pos + n;
        Ok(out)
    }

    pub fn u8(&mut self) -> (r: Result<u8>)
        ensures
            match r {
                Ok(v) => {
                    &&& v == old(self).input()[old(self).at()]
                    &&& final(self).advanced(*old(self), 1)
                },
                Err(e) => {
                    &&& old(self).input().len() < old(self).at() + 1
                    &&& e == (ProtoError::Short {
                        need: 1,
                        have: (old(self).input().len() - old(self).at()) as usize,
                    })
                    &&& final(self).advanced(*old(self), 0)
                },
            },
    {
        let b = self.take(1)?;
        Ok(b[0])
    }

    pub fn u16(&mut self) -> (r: Result<u16>)
        ensures
            match r {
                Ok(v) => {
                    &&& v == wire::u16_at(old(self).input(), old(self).at())
                    &&& final(self).advanced(*old(self), 2)
                },
                Err(e) => {
                    &&& old(self).input().len() < old(self).at() + 2
                    &&& e == (ProtoError::Short {
                        need: 2,
                        have: (old(self).input().len() - old(self).at()) as usize,
                    })
                    &&& final(self).advanced(*old(self), 0)
                },
            },
    {
        let b = self.take(2)?;
        Ok(b[0] as u16 + 256 * b[1] as u16)
    }

    pub fn u32(&mut self) -> (r: Result<u32>)
        ensures
            match r {
                Ok(v) => {
                    &&& v == wire::u32_at(old(self).input(), old(self).at())
                    &&& final(self).advanced(*old(self), 4)
                },
                Err(e) => {
                    &&& old(self).input().len() < old(self).at() + 4
                    &&& e == (ProtoError::Short {
                        need: 4,
                        have: (old(self).input().len() - old(self).at()) as usize,
                    })
                    &&& final(self).advanced(*old(self), 0)
                },
            },
    {
        let b = self.take(4)?;
        Ok(le_u32(b))
    }

    pub fn u64(&mut self) -> (r: Result<u64>)
        ensures
            match r {
                Ok(v) => {
                    &&& v == wire::u64_at(old(self).input(), old(self).at())
                    &&& final(self).advanced(*old(self), 8)
                },
                Err(e) => {
                    &&& old(self).input().len() < old(self).at() + 8
                    &&& e == (ProtoError::Short {
                        need: 8,
                        have: (old(self).input().len() - old(self).at()) as usize,
                    })
                    &&& final(self).advanced(*old(self), 0)
                },
            },
    {
        let b = self.take(8)?;
        let low: u32 = le_u32(slice_subrange(b, 0, 4));
        let high: u32 = le_u32(slice_subrange(b, 4, 8));
        Ok(low as u64 + 4294967296 * high as u64)
    }

    pub fn i16(&mut self) -> (r: Result<i16>)
        ensures
            match r {
                Ok(v) => {
                    &&& v == wire::i16_at(old(self).input(), old(self).at())
                    &&& final(self).advanced(*old(self), 2)
                },
                Err(e) => {
                    &&& old(self).input().len() < old(self).at() + 2
                    &&& e == (ProtoError::Short {
                        need: 2,
                        have: (old(self).input().len() - old(self).at()) as usize,
                    })
                    &&& final(self).advanced(*old(self), 0)
                },
            },
    {
        let v: u16 = self.u16()?;
        proof {
            wire::signed16_cast(v, 0);
        }
        Ok(v as i16)
    }

    pub fn i32(&mut self) -> (r: Result<i32>)
        ensures
            match r {
                Ok(v) => {
                    &&& v == wire::i32_at(old(self).input(), old(self).at())
                    &&& final(self).advanced(*old(self), 4)
                },
                Err(e) => {
                    &&& old(self).input().len() < old(self).at() + 4
                    &&& e == (ProtoError::Short {
                        need: 4,
                        have: (old(self).input().len() - old(self).at()) as usize,
                    })
                    &&& final(self).advanced(*old(self), 0)
                },
            },
    {
        let v: u32 = self.u32()?;
        proof {
            wire::signed32_cast(v, 0);
        }
        Ok(v as i32)
    }

    pub fn i64(&mut self) -> (r: Result<i64>)
        ensures
            match r {
                Ok(v) => {
                    &&& v == wire::i64_at(old(self).input(), old(self).at())
                    &&& final(self).advanced(*old(self), 8)
                },
                Err(e) => {
                    &&& old(self).input().len() < old(self).at() + 8
                    &&& e == (ProtoError::Short {
                        need: 8,
                        have: (old(self).input().len() - old(self).at()) as usize,
                    })
                    &&& final(self).advanced(*old(self), 0)
                },
            },
    {
        let v: u64 = self.u64()?;
        proof {
            wire::signed64_cast(v, 0);
        }
        Ok(v as i64)
    }

    /// The next `n` bytes.
    pub fn bytes(&mut self, n: usize) -> (r: Result<&'a [u8]>)
        ensures
            match r {
                Ok(b) => {
                    &&& old(self).at() + n <= old(self).input().len()
                    &&& b@ == old(self).input().subrange(old(self).at(), old(self).at() + n)
                    &&& final(self).advanced(*old(self), n as int)
                },
                Err(e) => {
                    &&& old(self).input().len() < old(self).at() + n
                    &&& e == (ProtoError::Short {
                        need: n,
                        have: (old(self).input().len() - old(self).at()) as usize,
                    })
                    &&& final(self).advanced(*old(self), 0)
                },
            },
    {
        self.take(n)
    }
}

/// A read led from `before` to `after` as expected: it gave the value and came
/// to where it ends; or it failed, at the field that was not all there.
pub open spec fn reads<T>(
    before: Reader<'_>,
    after: Reader<'_>,
    expected: Result<(T, int)>,
    got: Result<T>,
) -> bool {
    match expected {
        Ok((v, j)) => {
            &&& got == Ok::<T, ProtoError>(v)
            &&& after.advanced(before, j - before.at())
        },
        Err(e) => {
            &&& got == Err::<T, ProtoError>(e)
            &&& e matches ProtoError::Short { have, .. }
            &&& after.advanced(before, before.input().len() - before.at() - have)
        },
    }
}

/// The four bytes of `b` as a little-endian number.
fn le_u32(b: &[u8]) -> (v: u32)
    requires
        b@.len() == 4,
    ensures
        v == wire::u32_at(b@, 0),
{
    b[0] as u32 + 256 * b[1] as u32 + 65536 * b[2] as u32 + 16777216 * b[3] as u32
}

/// Append a `u16`, least significant byte first.
pub(crate) fn push_le16(out: &mut Vec<u8>, v: u16)
    ensures
        final(out)@ == old(out)@ + wire::le16(v),
{
    out.push((v % 256) as u8);
    out.push((v / 256) as u8);
    assert(out@ =~= old(out)@ + wire::le16(v));
}

/// Append a `u32`, least significant byte first.
pub(crate) fn push_le32(out: &mut Vec<u8>, v: u32)
    ensures
        final(out)@ == old(out)@ + wire::le32(v),
{
    out.push((v % 256) as u8);
    out.push((v / 256 % 256) as u8);
    out.push((v / 65536 % 256) as u8);
    out.push((v / 16777216) as u8);
    assert(out@ =~= old(out)@ + wire::le32(v));
}

/// Append a `u64`, least significant byte first.
pub(crate) fn push_le64(out: &mut Vec<u8>, v: u64)
    ensures
        final(out)@ == old(out)@ + wire::le64(v),
{
    push_le32(out, (v % 4294967296) as u32);
    push_le32(out, (v / 4294967296) as u32);
    assert(out@ =~= old(out)@ + wire::le64(v));
}

/// Append-only little-endian byte writer.
pub struct Writer {
    buf: Vec<u8>,
}

impl View for Writer {
    type V = Seq<u8>;

    /// What has been written.
    closed spec fn view(&self) -> Seq<u8> {
        self.buf@
    }
}

impl Default for Writer {
    fn default() -> (w: Self)
        ensures
            w@ == Seq::<u8>::empty(),
    {
        Self::new()
    }
}

impl Writer {
    pub fn new() -> (w: Self)
        ensures
            w@ == Seq::<u8>::empty(),
    {
        Self { buf: Vec::new() }
    }

    /// A writer with room for `cap` bytes, which is at most what an allocation
    /// can have.
    pub fn with_capacity(cap: usize) -> (w: Self)
        requires
            cap <= isize::MAX,
        ensures
            w@ == Seq::<u8>::empty(),
    {
        Self { buf: Vec::with_capacity(cap) }
    }

    pub fn into_vec(self) -> (v: Vec<u8>)
        ensures
            v@ == self@,
    {
        self.buf
    }

    pub fn as_slice(&self) -> (s: &[u8])
        ensures
            s@ == self@,
    {
        self.buf.as_slice()
    }

    pub fn u8(&mut self, v: u8)
        ensures
            final(self)@ == old(self)@ + seq![v],
    {
        self.buf.push(v);
        assert(self@ =~= old(self)@ + seq![v]);
    }

    pub fn u16(&mut self, v: u16)
        ensures
            final(self)@ == old(self)@ + wire::le16(v),
    {
        push_le16(&mut self.buf, v);
    }

    pub fn u32(&mut self, v: u32)
        ensures
            final(self)@ == old(self)@ + wire::le32(v),
    {
        push_le32(&mut self.buf, v);
    }

    pub fn u64(&mut self, v: u64)
        ensures
            final(self)@ == old(self)@ + wire::le64(v),
    {
        push_le64(&mut self.buf, v);
    }

    pub fn i16(&mut self, v: i16)
        ensures
            final(self)@ == old(self)@ + wire::le16s(v),
    {
        proof {
            wire::signed16_cast(0, v);
        }
        self.u16(v as u16);
    }

    pub fn i32(&mut self, v: i32)
        ensures
            final(self)@ == old(self)@ + wire::le32s(v),
    {
        proof {
            wire::signed32_cast(0, v);
        }
        self.u32(v as u32);
    }

    pub fn i64(&mut self, v: i64)
        ensures
            final(self)@ == old(self)@ + wire::le64s(v),
    {
        proof {
            wire::signed64_cast(0, v);
        }
        self.u64(v as u64);
    }

    pub fn bytes(&mut self, v: &[u8])
        ensures
            final(self)@ == old(self)@ + v@,
    {
        self.buf.extend_from_slice(v);
        assert(self@ =~= old(self)@ + v@);
    }
}

#[derive(Debug, Clone, Copy, PartialEq, Eq, Structural)]
pub struct Point {
    pub x: i32,
    pub y: i32,
}

#[derive(Debug, Clone, Copy, PartialEq, Eq, Structural)]
pub struct Point16 {
    pub x: i16,
    pub y: i16,
}

/// SPICE rectangle: inclusive top/left, exclusive bottom/right.
#[derive(Debug, Clone, Copy, PartialEq, Eq, Structural)]
pub struct Rect {
    pub top: i32,
    pub left: i32,
    pub bottom: i32,
    pub right: i32,
}

impl Rect {
    /// The sixteen bytes of a rectangle.
    pub open spec fn wire(self) -> Seq<u8> {
        wire::le32s(self.top) + wire::le32s(self.left) + wire::le32s(self.bottom) + wire::le32s(self.right)
    }

    /// The rectangle whose bytes start at `i`.
    pub open spec fn spec_at(s: Seq<u8>, i: int) -> Rect {
        Rect {
            top: wire::i32_at(s, i),
            left: wire::i32_at(s, i + 4),
            bottom: wire::i32_at(s, i + 8),
            right: wire::i32_at(s, i + 12),
        }
    }

    /// What the bytes from `i` on read as, and where they end.
    pub open spec fn parse_at(s: Seq<u8>, i: int) -> Result<(Rect, int)> {
        match wire::short_in(seq![4, 4, 4, 4], s.len() - i) {
            Some(e) => Err(e),
            None => Ok((Self::spec_at(s, i), i + 16)),
        }
    }

    pub fn decode(r: &mut Reader<'_>) -> (res: Result<Self>)
        ensures
            reads(*old(r), *final(r), Self::parse_at(old(r).input(), old(r).at()), res),
    {
        proof {
            reveal_with_fuel(wire::short_from, 5);
        }
        Ok(Self { top: r.i32()?, left: r.i32()?, bottom: r.i32()?, right: r.i32()? })
    }

    pub fn encode(&self, w: &mut Writer)
        ensures
            final(w)@ == old(w)@ + self.wire(),
    {
        w.i32(self.top);
        w.i32(self.left);
        w.i32(self.bottom);
        w.i32(self.right);
        assert(w@ =~= old(w)@ + self.wire());
    }

    pub fn width(&self) -> (n: i32)
        requires
            i32::MIN <= self.right - self.left <= i32::MAX,
        ensures
            n == self.right - self.left,
    {
        self.right - self.left
    }

    pub fn height(&self) -> (n: i32)
        requires
            i32::MIN <= self.bottom - self.top <= i32::MAX,
        ensures
            n == self.bottom - self.top,
    {
        self.bottom - self.top
    }
}

/// A rectangle reads back as it was written, wherever it stands.
#[verifier::rlimit(50)]
#[verifier::spinoff_prover]
pub proof fn rect_round_trip(m: Rect, head: Seq<u8>, tail: Seq<u8>)
    ensures
        Rect::parse_at(head + (m.wire() + tail), head.len() as int) == Ok::<
            (Rect, int),
            ProtoError,
        >((m, head.len() as int + 16)),
{
    reveal_with_fuel(wire::short_from, 5);
    let s = m.wire() + tail;
    wire::lemma_lengths();
    assert(wire::i32_at(s, 0) == m.top) by {
        broadcast use wire::group_parts;

        assert(s.subrange(0, 4) == wire::le32s(m.top));
        wire::i32_at_le32s(s, 0, m.top);
    }
    assert(wire::i32_at(s, 4) == m.left) by {
        broadcast use wire::group_parts;

        assert(s.subrange(4, 8) == wire::le32s(m.left));
        wire::i32_at_le32s(s, 4, m.left);
    }
    assert(wire::i32_at(s, 8) == m.bottom) by {
        broadcast use wire::group_parts;

        assert(s.subrange(8, 12) == wire::le32s(m.bottom));
        wire::i32_at_le32s(s, 8, m.bottom);
    }
    assert(wire::i32_at(s, 12) == m.right) by {
        broadcast use wire::group_parts;

        assert(s.subrange(12, 16) == wire::le32s(m.right));
        wire::i32_at_le32s(s, 12, m.right);
    }
    wire::lemma_shifted(head, s, 0);
    wire::lemma_shifted(head, s, 4);
    wire::lemma_shifted(head, s, 8);
    wire::lemma_shifted(head, s, 12);
}

/// Identifier pair sent in `MAIN_CHANNELS_LIST`.
#[derive(Debug, Clone, Copy, PartialEq, Eq, Structural)]
pub struct ChannelId {
    pub channel_type: u8,
    pub id: u8,
}

} // verus!
