//! Post-handshake data framing.
//!
//! Once the link handshake completes, both sides exchange length-prefixed
//! messages. The framing format depends on whether `MINI_HEADER` was
//! negotiated in common caps: 18-byte [`DataHeader`] vs 6-byte
//! [`MiniDataHeader`].

use vstd::prelude::*;

use crate::net::error::{lift, NetError, Result};
use crate::proto::header;
use crate::proto::header::{DataHeader, MiniDataHeader, DATA_HEADER_SIZE, MINI_DATA_HEADER_SIZE};

verus! {

/// Refuse to allocate for a message bigger than this. Most SPICE messages are
/// tiny; framebuffer updates are the exception but still fit.
pub const DEFAULT_MAX_MESSAGE_SIZE: u32 = 33_554_432;

/// A framed message body plus the header fields that were on the wire.
#[derive(Debug, Clone, PartialEq, Eq)]
pub struct Message {
    pub msg_type: u16,
    /// Present when full headers are in use.
    pub serial: Option<u64>,
    pub body: Vec<u8>,
}

/// A message to send.
#[derive(Debug, Clone, PartialEq, Eq)]
pub struct Outgoing {
    pub msg_type: u16,
    pub body: Vec<u8>,
}

impl View for Outgoing {
    type V = (u16, Seq<u8>);

    open spec fn view(&self) -> (u16, Seq<u8>) {
        (self.msg_type, self.body@)
    }
}

/// The messages, by type and body.
pub open spec fn sent(out: Seq<Outgoing>) -> Seq<(u16, Seq<u8>)> {
    Seq::new(out.len(), |i: int| out[i]@)
}

/// What a data header says of the message behind it.
#[derive(Debug, Clone, Copy, PartialEq, Eq, Structural)]
pub struct FrameHeader {
    pub msg_type: u16,
    /// Present when full headers are in use.
    pub serial: Option<u64>,
    pub size: u32,
}

impl FrameHeader {
    /// The message that this header and the body behind it make.
    pub fn message(self, body: Vec<u8>) -> (m: Message)
        ensures
            m == (Message { msg_type: self.msg_type, serial: self.serial, body }),
    {
        Message { msg_type: self.msg_type, serial: self.serial, body }
    }
}

/// How many bytes of header stand before a message.
pub open spec fn header_size(mini: bool) -> nat {
    if mini {
        6
    } else {
        18
    }
}

/// The bytes of a message. Only a full header carries the serial.
pub open spec fn framed(mini: bool, serial: u64, msg_type: u16, body: Seq<u8>) -> Seq<u8> {
    if mini {
        (MiniDataHeader { msg_type, size: body.len() as u32 }).wire() + body
    } else {
        (DataHeader { serial, msg_type, size: body.len() as u32, sub_list: 0 }).wire() + body
    }
}

/// What header bytes say, where the body is within the limit.
pub open spec fn frame_header(mini: bool, max: u32, s: Seq<u8>) -> Result<FrameHeader> {
    let h: Result<FrameHeader> = if mini {
        match MiniDataHeader::parse(s) {
            Err(e) => Err(NetError::Proto(e)),
            Ok(h) => Ok(FrameHeader { msg_type: h.msg_type, serial: None, size: h.size }),
        }
    } else {
        match DataHeader::parse(s) {
            Err(e) => Err(NetError::Proto(e)),
            Ok(h) => Ok(
                FrameHeader { msg_type: h.msg_type, serial: Some(h.serial), size: h.size },
            ),
        }
    };
    match h {
        Err(e) => Err(e),
        Ok(h) => if h.size > max {
            Err(NetError::MessageTooLarge { size: h.size, max })
        } else {
            Ok(h)
        },
    }
}

/// The serial after this one. It wraps.
pub open spec fn next_serial(serial: u64) -> u64 {
    if serial == u64::MAX {
        0
    } else {
        (serial + 1) as u64
    }
}

/// A stream and how the messages on it are framed.
pub struct Channel<S> {
    stream: S,
    mini_header: bool,
    send_serial: u64,
    max_message_size: u32,
}

impl<S> Channel<S> {
    /// The stream.
    pub closed spec fn stream(self) -> S {
        self.stream
    }

    /// Messages have the compact header.
    pub closed spec fn mini(self) -> bool {
        self.mini_header
    }

    /// The serial of the next message sent.
    pub closed spec fn serial(self) -> u64 {
        self.send_serial
    }

    /// How large a body may be.
    pub closed spec fn max(self) -> u32 {
        self.max_message_size
    }

    /// SPICE serials start at 1: 0 is reserved.
    pub fn new(stream: S, mini_header: bool) -> (c: Self)
        ensures
            c.stream() == stream,
            c.mini() == mini_header,
            c.serial() == 1,
            c.max() == DEFAULT_MAX_MESSAGE_SIZE,
    {
        Self {
            stream,
            mini_header,
            send_serial: 1,
            max_message_size: DEFAULT_MAX_MESSAGE_SIZE,
        }
    }

    pub fn set_max_message_size(&mut self, max: u32)
        ensures
            final(self).max() == max,
            final(self).stream() == old(self).stream(),
            final(self).mini() == old(self).mini(),
            final(self).serial() == old(self).serial(),
    {
        self.max_message_size = max;
    }

    pub fn mini_header(&self) -> (b: bool)
        ensures
            b == self.mini(),
    {
        self.mini_header
    }

    pub fn get_ref(&self) -> (s: &S)
        ensures
            *s == self.stream(),
    {
        &self.stream
    }

    pub fn get_mut(&mut self) -> (s: &mut S)
        ensures
            *s == old(self).stream(),
            final(self).stream() == *final(s),
            final(self).mini() == old(self).mini(),
            final(self).serial() == old(self).serial(),
            final(self).max() == old(self).max(),
    {
        &mut self.stream
    }

    pub fn into_inner(self) -> (s: S)
        ensures
            s == self.stream(),
    {
        self.stream
    }

    /// How many bytes of header stand before the next message.
    pub fn header_len(&self) -> (n: usize)
        ensures
            n == header_size(self.mini()),
    {
        if self.mini_header {
            MINI_DATA_HEADER_SIZE
        } else {
            DATA_HEADER_SIZE
        }
    }

    /// What the header bytes of the next message say. The body is refused
    /// before anything is allocated for it.
    pub fn read_header(&self, header: &[u8]) -> (r: Result<FrameHeader>)
        ensures
            r == frame_header(self.mini(), self.max(), header@),
    {
        let h = if self.mini_header {
            let h = lift(MiniDataHeader::decode(header))?;
            FrameHeader { msg_type: h.msg_type, serial: None, size: h.size }
        } else {
            let h = lift(DataHeader::decode(header))?;
            FrameHeader { msg_type: h.msg_type, serial: Some(h.serial), size: h.size }
        };
        if h.size > self.max_message_size {
            return Err(NetError::MessageTooLarge { size: h.size, max: self.max_message_size });
        }
        Ok(h)
    }

    /// The bytes of a message to send. A full header takes the next serial.
    pub fn write_message(&mut self, msg_type: u16, body: &[u8]) -> (r: Result<Vec<u8>>)
        ensures
            match r {
                Ok(bytes) => {
                    &&& body@.len() <= old(self).max()
                    &&& bytes@ == framed(old(self).mini(), old(self).serial(), msg_type, body@)
                },
                Err(e) => {
                    &&& body@.len() > old(self).max()
                    &&& e == (NetError::MessageTooLarge {
                        size: if body@.len() > u32::MAX {
                            u32::MAX
                        } else {
                            body@.len() as u32
                        },
                        max: old(self).max(),
                    })
                },
            },
            final(self).serial() == (if r is Ok && !old(self).mini() {
                next_serial(old(self).serial())
            } else {
                old(self).serial()
            }),
            final(self).stream() == old(self).stream(),
            final(self).mini() == old(self).mini(),
            final(self).max() == old(self).max(),
    {
        if body.len() as u64 > u32::MAX as u64 {
            return Err(
                NetError::MessageTooLarge { size: u32::MAX, max: self.max_message_size },
            );
        }
        let size: u32 = body.len() as u32;
        if size > self.max_message_size {
            return Err(NetError::MessageTooLarge { size, max: self.max_message_size });
        }
        let mut out: Vec<u8> = Vec::new();
        if self.mini_header {
            MiniDataHeader { msg_type, size }.encode(&mut out);
        } else {
            DataHeader { serial: self.send_serial, msg_type, size, sub_list: 0 }.encode(&mut out);
            self.send_serial = if self.send_serial == u64::MAX {
                0
            } else {
                self.send_serial + 1
            };
        }
        out.extend_from_slice(body);
        assert(out@ =~= framed(old(self).mini(), old(self).serial(), msg_type, body@));
        Ok(out)
    }
}

/// A message within both limits is read as it was sent: its header gives the
/// type, the size of the body and, where headers are full, the serial; and the
/// body follows.
#[verifier::rlimit(50)]
#[verifier::spinoff_prover]
pub proof fn framing_round_trip(
    mini: bool,
    serial: u64,
    max: u32,
    msg_type: u16,
    body: Seq<u8>,
    tail: Seq<u8>,
)
    requires
        body.len() <= max,
    ensures
        ({
            let s = framed(mini, serial, msg_type, body) + tail;
            let n = header_size(mini) as int;
            &&& frame_header(mini, max, s.take(n)) == Ok::<FrameHeader, NetError>(
                FrameHeader {
                    msg_type,
                    serial: if mini {
                        None
                    } else {
                        Some(serial)
                    },
                    size: body.len() as u32,
                },
            )
            &&& s.subrange(n, n + body.len()) == body
        }),
{
    let s = framed(mini, serial, msg_type, body) + tail;
    let n = header_size(mini) as int;
    let size = body.len() as u32;
    let none = Seq::<u8>::empty();
    if mini {
        let h = MiniDataHeader { msg_type, size };
        header::mini_header_round_trip(h, none);
        assert(s.take(n) =~= h.wire() + none);
    } else {
        let h = DataHeader { serial, msg_type, size, sub_list: 0 };
        header::data_header_round_trip(h, none);
        assert(s.take(n) =~= h.wire() + none);
    }
    assert(s.subrange(n, n + body.len()) =~= body);
}

} // verus!
