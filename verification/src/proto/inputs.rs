//! Input-channel messages (keyboard and mouse).

use vstd::prelude::*;

use crate::proto::error::{ProtoError, Result};
use crate::proto::types::{Reader, Writer};
use crate::proto::wire;

pub mod button;
pub mod button_mask;
pub mod client_msg;
pub mod server_msg;

verus! {

/// `SPICE_MSG_INPUTS_INIT`.
#[derive(Debug, Clone, Copy, PartialEq, Eq, Structural)]
pub struct InputsInit {
    pub keyboard_modifiers: u32,
}

impl InputsInit {
    /// The inputs-init message whose bytes start at `i`.
    pub open spec fn spec_at(s: Seq<u8>, i: int) -> InputsInit {
        InputsInit {
            keyboard_modifiers: wire::u32_at(s, i),
        }
    }

    /// The bytes of a inputs-init message.
    pub open spec fn wire(self) -> Seq<u8> {
        wire::le32(self.keyboard_modifiers)
    }

    /// What a message body reads as.
    pub open spec fn parse(s: Seq<u8>) -> Result<InputsInit> {
        match wire::short_in(seq![4], s.len() as int) {
            Some(e) => Err(e),
            None => Ok(Self::spec_at(s, 0)),
        }
    }

    pub fn decode(buf: &[u8]) -> (res: Result<Self>)
        ensures
            res == Self::parse(buf@),
    {
        proof {
            reveal_with_fuel(wire::short_from, 2);
        }
        let mut r = Reader::new(buf);
        Ok(
            Self {
                keyboard_modifiers: r.u32()?,
            },
        )
    }

    pub fn encode(&self, w: &mut Writer)
        ensures
            final(w)@ == old(w)@ + self.wire(),
    {
        w.u32(self.keyboard_modifiers);
        assert(w@ =~= old(w)@ + self.wire());
    }
}

/// An inputs-init message reads back as it was written, whatever follows it.
#[verifier::rlimit(50)]
#[verifier::spinoff_prover]
pub proof fn inputs_init_round_trip(m: InputsInit, tail: Seq<u8>)
    ensures
        InputsInit::parse(m.wire() + tail) == Ok::<InputsInit, ProtoError>(m),
{
    reveal_with_fuel(wire::short_from, 2);
    let s = m.wire() + tail;
    wire::lemma_lengths();
    assert(wire::u32_at(s, 0) == m.keyboard_modifiers) by {
        broadcast use wire::group_parts;

        assert(s.subrange(0, 4) == wire::le32(m.keyboard_modifiers));
        wire::u32_at_le32(s, 0, m.keyboard_modifiers);
    }
}

/// `SPICE_MSG_INPUTS_KEY_MODIFIERS`: server-driven LED and modifier state.
pub type KeyModifiers = InputsInit;

/// `SPICE_MSGC_INPUTS_KEY_DOWN` / `..._KEY_UP`. The value is the PC AT scancode
/// (set 1); multi-byte scancodes are packed big-endian into the low-order bytes so
/// the high byte is 0 for 1-byte scancodes.
#[derive(Debug, Clone, Copy, PartialEq, Eq, Structural)]
pub struct KeyCode {
    pub code: u32,
}

impl KeyCode {
    /// The key code whose bytes start at `i`.
    pub open spec fn spec_at(s: Seq<u8>, i: int) -> KeyCode {
        KeyCode {
            code: wire::u32_at(s, i),
        }
    }

    /// The bytes of a key code.
    pub open spec fn wire(self) -> Seq<u8> {
        wire::le32(self.code)
    }

    /// What a message body reads as.
    pub open spec fn parse(s: Seq<u8>) -> Result<KeyCode> {
        match wire::short_in(seq![4], s.len() as int) {
            Some(e) => Err(e),
            None => Ok(Self::spec_at(s, 0)),
        }
    }

    pub fn decode(buf: &[u8]) -> (res: Result<Self>)
        ensures
            res == Self::parse(buf@),
    {
        proof {
            reveal_with_fuel(wire::short_from, 2);
        }
        let mut r = Reader::new(buf);
        Ok(
            Self {
                code: r.u32()?,
            },
        )
    }

    pub fn encode(&self, w: &mut Writer)
        ensures
            final(w)@ == old(w)@ + self.wire(),
    {
        w.u32(self.code);
        assert(w@ =~= old(w)@ + self.wire());
    }
}

/// A key code reads back as it was written, whatever follows it.
#[verifier::rlimit(50)]
#[verifier::spinoff_prover]
pub proof fn key_code_round_trip(m: KeyCode, tail: Seq<u8>)
    ensures
        KeyCode::parse(m.wire() + tail) == Ok::<KeyCode, ProtoError>(m),
{
    reveal_with_fuel(wire::short_from, 2);
    let s = m.wire() + tail;
    wire::lemma_lengths();
    assert(wire::u32_at(s, 0) == m.code) by {
        broadcast use wire::group_parts;

        assert(s.subrange(0, 4) == wire::le32(m.code));
        wire::u32_at_le32(s, 0, m.code);
    }
}

/// `SPICE_MSGC_INPUTS_MOUSE_MOTION`: relative mouse movement.
#[derive(Debug, Clone, Copy, PartialEq, Eq, Structural)]
pub struct MouseMotion {
    pub dx: i32,
    pub dy: i32,
    pub buttons_state: u32,
}

impl MouseMotion {
    /// The mouse motion whose bytes start at `i`.
    pub open spec fn spec_at(s: Seq<u8>, i: int) -> MouseMotion {
        MouseMotion {
            dx: wire::i32_at(s, i),
            dy: wire::i32_at(s, i + 4),
            buttons_state: wire::u32_at(s, i + 8),
        }
    }

    /// The bytes of a mouse motion.
    pub open spec fn wire(self) -> Seq<u8> {
        wire::le32s(self.dx) + wire::le32s(self.dy) + wire::le32(self.buttons_state)
    }

    /// What a message body reads as.
    pub open spec fn parse(s: Seq<u8>) -> Result<MouseMotion> {
        match wire::short_in(seq![4, 4, 4], s.len() as int) {
            Some(e) => Err(e),
            None => Ok(Self::spec_at(s, 0)),
        }
    }

    pub fn decode(buf: &[u8]) -> (res: Result<Self>)
        ensures
            res == Self::parse(buf@),
    {
        proof {
            reveal_with_fuel(wire::short_from, 4);
        }
        let mut r = Reader::new(buf);
        Ok(
            Self {
                dx: r.i32()?,
                dy: r.i32()?,
                buttons_state: r.u32()?,
            },
        )
    }

    pub fn encode(&self, w: &mut Writer)
        ensures
            final(w)@ == old(w)@ + self.wire(),
    {
        w.i32(self.dx);
        w.i32(self.dy);
        w.u32(self.buttons_state);
        assert(w@ =~= old(w)@ + self.wire());
    }
}

/// A mouse motion reads back as it was written, whatever follows it.
#[verifier::rlimit(50)]
#[verifier::spinoff_prover]
pub proof fn mouse_motion_round_trip(m: MouseMotion, tail: Seq<u8>)
    ensures
        MouseMotion::parse(m.wire() + tail) == Ok::<MouseMotion, ProtoError>(m),
{
    reveal_with_fuel(wire::short_from, 4);
    let s = m.wire() + tail;
    wire::lemma_lengths();
    assert(wire::i32_at(s, 0) == m.dx) by {
        broadcast use wire::group_parts;

        assert(s.subrange(0, 4) == wire::le32s(m.dx));
        wire::i32_at_le32s(s, 0, m.dx);
    }
    assert(wire::i32_at(s, 4) == m.dy) by {
        broadcast use wire::group_parts;

        assert(s.subrange(4, 8) == wire::le32s(m.dy));
        wire::i32_at_le32s(s, 4, m.dy);
    }
    assert(wire::u32_at(s, 8) == m.buttons_state) by {
        broadcast use wire::group_parts;

        assert(s.subrange(8, 12) == wire::le32(m.buttons_state));
        wire::u32_at_le32(s, 8, m.buttons_state);
    }
}

/// `SPICE_MSGC_INPUTS_MOUSE_POSITION`: absolute coordinates (client mouse mode).
/// 13 bytes on the wire (packed).
#[derive(Debug, Clone, Copy, PartialEq, Eq, Structural)]
pub struct MousePosition {
    pub x: u32,
    pub y: u32,
    pub buttons_state: u32,
    pub display_id: u8,
}

impl MousePosition {
    /// The mouse position whose bytes start at `i`.
    pub open spec fn spec_at(s: Seq<u8>, i: int) -> MousePosition {
        MousePosition {
            x: wire::u32_at(s, i),
            y: wire::u32_at(s, i + 4),
            buttons_state: wire::u32_at(s, i + 8),
            display_id: s[i + 12],
        }
    }

    /// The bytes of a mouse position.
    pub open spec fn wire(self) -> Seq<u8> {
        wire::le32(self.x) + wire::le32(self.y) + wire::le32(self.buttons_state)
            + seq![self.display_id]
    }

    /// What a message body reads as.
    pub open spec fn parse(s: Seq<u8>) -> Result<MousePosition> {
        match wire::short_in(seq![4, 4, 4, 1], s.len() as int) {
            Some(e) => Err(e),
            None => Ok(Self::spec_at(s, 0)),
        }
    }

    pub fn decode(buf: &[u8]) -> (res: Result<Self>)
        ensures
            res == Self::parse(buf@),
    {
        proof {
            reveal_with_fuel(wire::short_from, 5);
        }
        let mut r = Reader::new(buf);
        Ok(
            Self {
                x: r.u32()?,
                y: r.u32()?,
                buttons_state: r.u32()?,
                display_id: r.u8()?,
            },
        )
    }

    pub fn encode(&self, w: &mut Writer)
        ensures
            final(w)@ == old(w)@ + self.wire(),
    {
        w.u32(self.x);
        w.u32(self.y);
        w.u32(self.buttons_state);
        w.u8(self.display_id);
        assert(w@ =~= old(w)@ + self.wire());
    }
}

/// A mouse position reads back as it was written, whatever follows it.
#[verifier::rlimit(50)]
#[verifier::spinoff_prover]
pub proof fn mouse_position_round_trip(m: MousePosition, tail: Seq<u8>)
    ensures
        MousePosition::parse(m.wire() + tail) == Ok::<MousePosition, ProtoError>(m),
{
    reveal_with_fuel(wire::short_from, 5);
    let s = m.wire() + tail;
    wire::lemma_lengths();
    assert(wire::u32_at(s, 0) == m.x) by {
        broadcast use wire::group_parts;

        assert(s.subrange(0, 4) == wire::le32(m.x));
        wire::u32_at_le32(s, 0, m.x);
    }
    assert(wire::u32_at(s, 4) == m.y) by {
        broadcast use wire::group_parts;

        assert(s.subrange(4, 8) == wire::le32(m.y));
        wire::u32_at_le32(s, 4, m.y);
    }
    assert(wire::u32_at(s, 8) == m.buttons_state) by {
        broadcast use wire::group_parts;

        assert(s.subrange(8, 12) == wire::le32(m.buttons_state));
        wire::u32_at_le32(s, 8, m.buttons_state);
    }
    assert(s[12] == m.display_id) by {
        broadcast use wire::group_parts;

        assert(s.subrange(12, 13) == seq![m.display_id]);
        assert(s.subrange(12, 13)[0] == s[12]);
    }
}

/// `SPICE_MSGC_INPUTS_MOUSE_PRESS` / `..._MOUSE_RELEASE`. 5 bytes (packed).
#[derive(Debug, Clone, Copy, PartialEq, Eq, Structural)]
pub struct MouseButton {
    pub button: u8,
    pub buttons_state: u32,
}

impl MouseButton {
    /// The mouse button message whose bytes start at `i`.
    pub open spec fn spec_at(s: Seq<u8>, i: int) -> MouseButton {
        MouseButton {
            button: s[i],
            buttons_state: wire::u32_at(s, i + 1),
        }
    }

    /// The bytes of a mouse button message.
    pub open spec fn wire(self) -> Seq<u8> {
        seq![self.button] + wire::le32(self.buttons_state)
    }

    /// What a message body reads as.
    pub open spec fn parse(s: Seq<u8>) -> Result<MouseButton> {
        match wire::short_in(seq![1, 4], s.len() as int) {
            Some(e) => Err(e),
            None => Ok(Self::spec_at(s, 0)),
        }
    }

    pub fn decode(buf: &[u8]) -> (res: Result<Self>)
        ensures
            res == Self::parse(buf@),
    {
        proof {
            reveal_with_fuel(wire::short_from, 3);
        }
        let mut r = Reader::new(buf);
        Ok(
            Self {
                button: r.u8()?,
                buttons_state: r.u32()?,
            },
        )
    }

    pub fn encode(&self, w: &mut Writer)
        ensures
            final(w)@ == old(w)@ + self.wire(),
    {
        w.u8(self.button);
        w.u32(self.buttons_state);
        assert(w@ =~= old(w)@ + self.wire());
    }
}

/// A mouse button message reads back as it was written, whatever follows it.
#[verifier::rlimit(50)]
#[verifier::spinoff_prover]
pub proof fn mouse_button_round_trip(m: MouseButton, tail: Seq<u8>)
    ensures
        MouseButton::parse(m.wire() + tail) == Ok::<MouseButton, ProtoError>(m),
{
    reveal_with_fuel(wire::short_from, 3);
    let s = m.wire() + tail;
    wire::lemma_lengths();
    assert(s[0] == m.button) by {
        broadcast use wire::group_parts;

        assert(s.subrange(0, 1) == seq![m.button]);
        assert(s.subrange(0, 1)[0] == s[0]);
    }
    assert(wire::u32_at(s, 1) == m.buttons_state) by {
        broadcast use wire::group_parts;

        assert(s.subrange(1, 5) == wire::le32(m.buttons_state));
        wire::u32_at_le32(s, 1, m.buttons_state);
    }
}

} // verus!
