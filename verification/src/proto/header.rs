//! Per-message data headers that follow the link handshake.

use vstd::prelude::*;

use crate::proto::error::{ProtoError, Result};
use crate::proto::types::{push_le16, push_le32, push_le64, Reader};
use crate::proto::wire;

verus! {

/// Wire size of the full [`DataHeader`] (packed).
pub const DATA_HEADER_SIZE: usize = 18;

/// Wire size of the [`MiniDataHeader`] (packed).
pub const MINI_DATA_HEADER_SIZE: usize = 6;

/// Full data header used when neither side advertises
/// `SPICE_COMMON_CAP_MINI_HEADER`.
#[derive(Debug, Clone, Copy, PartialEq, Eq, Structural)]
pub struct DataHeader {
    pub serial: u64,
    pub msg_type: u16,
    pub size: u32,
    /// Offset from the start of the header to a `SpiceSubMessageList`, or 0.
    pub sub_list: u32,
}

impl DataHeader {
    /// The eighteen bytes of a header.
    pub open spec fn wire(self) -> Seq<u8> {
        wire::le64(self.serial) + wire::le16(self.msg_type) + wire::le32(self.size) + wire::le32(
            self.sub_list,
        )
    }

    /// What the first eighteen bytes read as.
    pub open spec fn parse(s: Seq<u8>) -> Result<DataHeader> {
        if s.len() < DATA_HEADER_SIZE {
            Err(ProtoError::Short { need: DATA_HEADER_SIZE, have: s.len() as usize })
        } else {
            Ok(
                DataHeader {
                    serial: wire::u64_at(s, 0),
                    msg_type: wire::u16_at(s, 8),
                    size: wire::u32_at(s, 10),
                    sub_list: wire::u32_at(s, 14),
                },
            )
        }
    }

    pub fn decode(buf: &[u8]) -> (r: Result<Self>)
        ensures
            r == Self::parse(buf@),
    {
        if buf.len() < DATA_HEADER_SIZE {
            return Err(ProtoError::Short { need: DATA_HEADER_SIZE, have: buf.len() });
        }
        let mut r = Reader::new(buf);
        Ok(Self { serial: r.u64()?, msg_type: r.u16()?, size: r.u32()?, sub_list: r.u32()? })
    }

    pub fn encode(&self, out: &mut Vec<u8>)
        ensures
            final(out)@ == old(out)@ + self.wire(),
    {
        push_le64(out, self.serial);
        push_le16(out, self.msg_type);
        push_le32(out, self.size);
        push_le32(out, self.sub_list);
        assert(out@ =~= old(out)@ + self.wire());
    }
}

/// A full header reads back as it was written, whatever follows it, and takes
/// eighteen bytes.
#[verifier::rlimit(50)]
#[verifier::spinoff_prover]
pub proof fn data_header_round_trip(h: DataHeader, tail: Seq<u8>)
    ensures
        h.wire().len() == DATA_HEADER_SIZE,
        DataHeader::parse(h.wire() + tail) == Ok::<DataHeader, ProtoError>(h),
{
    let s = h.wire() + tail;
    wire::lemma_lengths();
    assert(wire::u64_at(s, 0) == h.serial) by {
        broadcast use wire::group_parts;

        assert(s.subrange(0, 8) == wire::le64(h.serial));
        wire::u64_at_le64(s, 0, h.serial);
    }
    assert(wire::u16_at(s, 8) == h.msg_type) by {
        broadcast use wire::group_parts;

        assert(s.subrange(8, 10) == wire::le16(h.msg_type));
        wire::u16_at_le16(s, 8, h.msg_type);
    }
    assert(wire::u32_at(s, 10) == h.size) by {
        broadcast use wire::group_parts;

        assert(s.subrange(10, 14) == wire::le32(h.size));
        wire::u32_at_le32(s, 10, h.size);
    }
    assert(wire::u32_at(s, 14) == h.sub_list) by {
        broadcast use wire::group_parts;

        assert(s.subrange(14, 18) == wire::le32(h.sub_list));
        wire::u32_at_le32(s, 14, h.sub_list);
    }
}

/// Compact header used when both sides advertise
/// `SPICE_COMMON_CAP_MINI_HEADER`.
#[derive(Debug, Clone, Copy, PartialEq, Eq, Structural)]
pub struct MiniDataHeader {
    pub msg_type: u16,
    pub size: u32,
}

impl MiniDataHeader {
    /// The six bytes of a header.
    pub open spec fn wire(self) -> Seq<u8> {
        wire::le16(self.msg_type) + wire::le32(self.size)
    }

    /// What the first six bytes read as.
    pub open spec fn parse(s: Seq<u8>) -> Result<MiniDataHeader> {
        if s.len() < MINI_DATA_HEADER_SIZE {
            Err(ProtoError::Short { need: MINI_DATA_HEADER_SIZE, have: s.len() as usize })
        } else {
            Ok(MiniDataHeader { msg_type: wire::u16_at(s, 0), size: wire::u32_at(s, 2) })
        }
    }

    pub fn decode(buf: &[u8]) -> (r: Result<Self>)
        ensures
            r == Self::parse(buf@),
    {
        if buf.len() < MINI_DATA_HEADER_SIZE {
            return Err(ProtoError::Short { need: MINI_DATA_HEADER_SIZE, have: buf.len() });
        }
        let mut r = Reader::new(buf);
        Ok(Self { msg_type: r.u16()?, size: r.u32()? })
    }

    pub fn encode(&self, out: &mut Vec<u8>)
        ensures
            final(out)@ == old(out)@ + self.wire(),
    {
        push_le16(out, self.msg_type);
        push_le32(out, self.size);
        assert(out@ =~= old(out)@ + self.wire());
    }
}

/// A compact header reads back as it was written, whatever follows it, and
/// takes six bytes.
#[verifier::rlimit(50)]
#[verifier::spinoff_prover]
pub proof fn mini_header_round_trip(h: MiniDataHeader, tail: Seq<u8>)
    ensures
        h.wire().len() == MINI_DATA_HEADER_SIZE,
        MiniDataHeader::parse(h.wire() + tail) == Ok::<MiniDataHeader, ProtoError>(h),
{
    let s = h.wire() + tail;
    wire::lemma_lengths();
    assert(s.subrange(0, 2) =~= wire::le16(h.msg_type));
    assert(s.subrange(2, 6) =~= wire::le32(h.size));
    wire::u16_at_le16(s, 0, h.msg_type);
    wire::u32_at_le32(s, 2, h.size);
}

} // verus!
