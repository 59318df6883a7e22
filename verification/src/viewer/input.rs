//! Input events from keys, mouse buttons and pointer positions.

use vstd::prelude::*;

use crate::client::events::InputEvent;
use crate::proto::inputs::{button, button_mask};

verus! {

/// A key by its place on the keyboard.
#[derive(Debug, Clone, Copy, PartialEq, Eq, Structural)]
pub enum Key {
    Escape,
    Digit1,
    Digit2,
    Digit3,
    Digit4,
    Digit5,
    Digit6,
    Digit7,
    Digit8,
    Digit9,
    Digit0,
    Minus,
    Equal,
    Backspace,
    Tab,
    KeyQ,
    KeyW,
    KeyE,
    KeyR,
    KeyT,
    KeyY,
    KeyU,
    KeyI,
    KeyO,
    KeyP,
    BracketLeft,
    BracketRight,
    Enter,
    ControlLeft,
    KeyA,
    KeyS,
    KeyD,
    KeyF,
    KeyG,
    KeyH,
    KeyJ,
    KeyK,
    KeyL,
    Semicolon,
    Quote,
    Backquote,
    ShiftLeft,
    Backslash,
    KeyZ,
    KeyX,
    KeyC,
    KeyV,
    KeyB,
    KeyN,
    KeyM,
    Comma,
    Period,
    Slash,
    ShiftRight,
    AltLeft,
    Space,
    CapsLock,
    F1,
    F2,
    F3,
    F4,
    F5,
    F6,
    F7,
    F8,
    F9,
    F10,
    ControlRight,
    AltRight,
    ArrowUp,
    ArrowLeft,
    ArrowRight,
    ArrowDown,
    Home,
    End,
    PageUp,
    PageDown,
    Insert,
    Delete,
    SuperLeft,
    SuperRight,
}

/// The PC AT set-1 scancode of a key. Extended keys have the `0xE0` prefix in
/// the high byte.
pub open spec fn scancode_of(key: Key) -> u32 {
    match key {
        Key::Escape => 0x01,
        Key::Digit1 => 0x02,
        Key::Digit2 => 0x03,
        Key::Digit3 => 0x04,
        Key::Digit4 => 0x05,
        Key::Digit5 => 0x06,
        Key::Digit6 => 0x07,
        Key::Digit7 => 0x08,
        Key::Digit8 => 0x09,
        Key::Digit9 => 0x0a,
        Key::Digit0 => 0x0b,
        Key::Minus => 0x0c,
        Key::Equal => 0x0d,
        Key::Backspace => 0x0e,
        Key::Tab => 0x0f,
        Key::KeyQ => 0x10,
        Key::KeyW => 0x11,
        Key::KeyE => 0x12,
        Key::KeyR => 0x13,
        Key::KeyT => 0x14,
        Key::KeyY => 0x15,
        Key::KeyU => 0x16,
        Key::KeyI => 0x17,
        Key::KeyO => 0x18,
        Key::KeyP => 0x19,
        Key::BracketLeft => 0x1a,
        Key::BracketRight => 0x1b,
        Key::Enter => 0x1c,
        Key::ControlLeft => 0x1d,
        Key::KeyA => 0x1e,
        Key::KeyS => 0x1f,
        Key::KeyD => 0x20,
        Key::KeyF => 0x21,
        Key::KeyG => 0x22,
        Key::KeyH => 0x23,
        Key::KeyJ => 0x24,
        Key::KeyK => 0x25,
        Key::KeyL => 0x26,
        Key::Semicolon => 0x27,
        Key::Quote => 0x28,
        Key::Backquote => 0x29,
        Key::ShiftLeft => 0x2a,
        Key::Backslash => 0x2b,
        Key::KeyZ => 0x2c,
        Key::KeyX => 0x2d,
        Key::KeyC => 0x2e,
        Key::KeyV => 0x2f,
        Key::KeyB => 0x30,
        Key::KeyN => 0x31,
        Key::KeyM => 0x32,
        Key::Comma => 0x33,
        Key::Period => 0x34,
        Key::Slash => 0x35,
        Key::ShiftRight => 0x36,
        Key::AltLeft => 0x38,
        Key::Space => 0x39,
        Key::CapsLock => 0x3a,
        Key::F1 => 0x3b,
        Key::F2 => 0x3c,
        Key::F3 => 0x3d,
        Key::F4 => 0x3e,
        Key::F5 => 0x3f,
        Key::F6 => 0x40,
        Key::F7 => 0x41,
        Key::F8 => 0x42,
        Key::F9 => 0x43,
        Key::F10 => 0x44,
        Key::ControlRight => 0xe01d,
        Key::AltRight => 0xe038,
        Key::ArrowUp => 0xe048,
        Key::ArrowLeft => 0xe04b,
        Key::ArrowRight => 0xe04d,
        Key::ArrowDown => 0xe050,
        Key::Home => 0xe047,
        Key::End => 0xe04f,
        Key::PageUp => 0xe049,
        Key::PageDown => 0xe051,
        Key::Insert => 0xe052,
        Key::Delete => 0xe053,
        Key::SuperLeft => 0xe05b,
        Key::SuperRight => 0xe05c,
    }
}

/// The PC AT set-1 scancode of a key, as SPICE understands it.
pub fn scancode(key: Key) -> (code: u32)
    ensures
        code == scancode_of(key),
{
    match key {
        Key::Escape => 0x01,
        Key::Digit1 => 0x02,
        Key::Digit2 => 0x03,
        Key::Digit3 => 0x04,
        Key::Digit4 => 0x05,
        Key::Digit5 => 0x06,
        Key::Digit6 => 0x07,
        Key::Digit7 => 0x08,
        Key::Digit8 => 0x09,
        Key::Digit9 => 0x0a,
        Key::Digit0 => 0x0b,
        Key::Minus => 0x0c,
        Key::Equal => 0x0d,
        Key::Backspace => 0x0e,
        Key::Tab => 0x0f,
        Key::KeyQ => 0x10,
        Key::KeyW => 0x11,
        Key::KeyE => 0x12,
        Key::KeyR => 0x13,
        Key::KeyT => 0x14,
        Key::KeyY => 0x15,
        Key::KeyU => 0x16,
        Key::KeyI => 0x17,
        Key::KeyO => 0x18,
        Key::KeyP => 0x19,
        Key::BracketLeft => 0x1a,
        Key::BracketRight => 0x1b,
        Key::Enter => 0x1c,
        Key::ControlLeft => 0x1d,
        Key::KeyA => 0x1e,
        Key::KeyS => 0x1f,
        Key::KeyD => 0x20,
        Key::KeyF => 0x21,
        Key::KeyG => 0x22,
        Key::KeyH => 0x23,
        Key::KeyJ => 0x24,
        Key::KeyK => 0x25,
        Key::KeyL => 0x26,
        Key::Semicolon => 0x27,
        Key::Quote => 0x28,
        Key::Backquote => 0x29,
        Key::ShiftLeft => 0x2a,
        Key::Backslash => 0x2b,
        Key::KeyZ => 0x2c,
        Key::KeyX => 0x2d,
        Key::KeyC => 0x2e,
        Key::KeyV => 0x2f,
        Key::KeyB => 0x30,
        Key::KeyN => 0x31,
        Key::KeyM => 0x32,
        Key::Comma => 0x33,
        Key::Period => 0x34,
        Key::Slash => 0x35,
        Key::ShiftRight => 0x36,
        Key::AltLeft => 0x38,
        Key::Space => 0x39,
        Key::CapsLock => 0x3a,
        Key::F1 => 0x3b,
        Key::F2 => 0x3c,
        Key::F3 => 0x3d,
        Key::F4 => 0x3e,
        Key::F5 => 0x3f,
        Key::F6 => 0x40,
        Key::F7 => 0x41,
        Key::F8 => 0x42,
        Key::F9 => 0x43,
        Key::F10 => 0x44,
        Key::ControlRight => 0xe01d,
        Key::AltRight => 0xe038,
        Key::ArrowUp => 0xe048,
        Key::ArrowLeft => 0xe04b,
        Key::ArrowRight => 0xe04d,
        Key::ArrowDown => 0xe050,
        Key::Home => 0xe047,
        Key::End => 0xe04f,
        Key::PageUp => 0xe049,
        Key::PageDown => 0xe051,
        Key::Insert => 0xe052,
        Key::Delete => 0xe053,
        Key::SuperLeft => 0xe05b,
        Key::SuperRight => 0xe05c,
    }
}

/// The code that releases a key: with the break bit, `0x80` in the low byte,
/// set. The higher bytes stay as they are.
pub open spec fn released(code: u32) -> u32 {
    if code / 128 % 2 == 1 {
        code
    } else {
        (code + 128) as u32
    }
}

/// The code that releases a key.
pub fn break_code(code: u32) -> (r: u32)
    ensures
        r == released(code),
        r / 256 == code / 256,
{
    if code / 128 % 2 == 1 {
        code
    } else {
        code + 128
    }
}

/// What is told of a key that went down or up.
pub open spec fn key_told(key: Key, pressed: bool) -> InputEvent {
    if pressed {
        InputEvent::KeyDown(scancode_of(key))
    } else {
        InputEvent::KeyUp(released(scancode_of(key)))
    }
}

/// The event for a key that went down or up.
pub fn key_event(key: Key, pressed: bool) -> (e: InputEvent)
    ensures
        e == key_told(key, pressed),
        e == (if pressed {
            InputEvent::KeyDown(scancode_of(key))
        } else {
            InputEvent::KeyUp(released(scancode_of(key)))
        }),
{
    let code: u32 = scancode(key);
    if pressed {
        InputEvent::KeyDown(code)
    } else {
        InputEvent::KeyUp(break_code(code))
    }
}

/// No two keys share a code, down or up: what the guest sees tells which key it
/// was, and whether it was pressed or released.
pub proof fn key_codes_are_distinct(a: Key, b: Key)
    ensures
        a != b ==> scancode_of(a) != scancode_of(b),
        a != b ==> released(scancode_of(a)) != released(scancode_of(b)),
        scancode_of(a) != released(scancode_of(b)),
{
}

/// A mouse button.
#[derive(Debug, Clone, Copy, PartialEq, Eq, Structural)]
pub enum MouseKey {
    Left,
    Right,
    Middle,
    /// One that is not forwarded.
    Other,
}

/// The SPICE number of a button and its bit in the button state.
pub open spec fn button_of(key: MouseKey) -> Option<(u8, u32)> {
    match key {
        MouseKey::Left => Some((button::LEFT, button_mask::LEFT)),
        MouseKey::Right => Some((button::RIGHT, button_mask::RIGHT)),
        MouseKey::Middle => Some((button::MIDDLE, button_mask::MIDDLE)),
        MouseKey::Other => None,
    }
}

/// Where the pointer is, in surface coordinates, and which buttons are down.
#[derive(Debug, Clone, Copy, PartialEq, Eq, Structural)]
pub struct Pointer {
    pub x: u32,
    pub y: u32,
    /// SPICE button mask.
    pub buttons: u32,
}

/// A coordinate brought onto an axis of `n` pixels.
pub open spec fn onto(v: i64, n: u32) -> u32 {
    if v < 0 {
        0
    } else if v > n - 1 {
        (n - 1) as u32
    } else {
        v as u32
    }
}

fn clamp_axis(v: i64, n: u32) -> (r: u32)
    requires
        n > 0,
    ensures
        r == onto(v, n),
        r < n,
{
    if v < 0 {
        0
    } else if v > n as i64 - 1 {
        n - 1
    } else {
        v as u32
    }
}

impl Pointer {
    /// The pointer after a button went down or up, and what is told of it.
    pub open spec fn clicked(self, key: MouseKey, pressed: bool) -> (Pointer, Option<InputEvent>) {
        match button_of(key) {
            None => (self, None),
            Some((button, mask)) => if pressed {
                let buttons = self.buttons | mask;
                (Pointer { buttons, ..self }, Some(InputEvent::MousePress { button, buttons }))
            } else {
                let buttons = self.buttons & !mask;
                (Pointer { buttons, ..self }, Some(InputEvent::MouseRelease { button, buttons }))
            },
        }
    }

    /// At the origin, with no button down.
    pub fn new() -> (p: Self)
        ensures
            p == (Pointer { x: 0, y: 0, buttons: 0 }),
    {
        Self { x: 0, y: 0, buttons: 0 }
    }

    /// The pointer moved to a place in surface coordinates. Off the surface it
    /// stays on the nearest edge.
    pub fn moved(&mut self, x: i64, y: i64, fb_w: u32, fb_h: u32) -> (e: InputEvent)
        requires
            fb_w > 0,
            fb_h > 0,
        ensures
            *final(self) == (Pointer { x: onto(x, fb_w), y: onto(y, fb_h), ..*old(self) }),
            e == (InputEvent::MousePosition {
                x: onto(x, fb_w),
                y: onto(y, fb_h),
                buttons: old(self).buttons,
                display: 0,
            }),
    {
        self.x = clamp_axis(x, fb_w);
        self.y = clamp_axis(y, fb_h);
        InputEvent::MousePosition { x: self.x, y: self.y, buttons: self.buttons, display: 0 }
    }

    /// A button went down or up. Its bit in the state follows, and the event
    /// carries the state after it.
    pub fn button(&mut self, key: MouseKey, pressed: bool) -> (e: Option<InputEvent>)
        ensures
            (*final(self), e) == old(self).clicked(key, pressed),
            match button_of(key) {
                None => *final(self) == *old(self) && e is None,
                Some((button, mask)) => if pressed {
                    &&& *final(self) == (Pointer { buttons: old(self).buttons | mask, ..*old(self) })
                    &&& e == Some(
                        InputEvent::MousePress { button, buttons: old(self).buttons | mask },
                    )
                } else {
                    &&& *final(self) == (Pointer {
                        buttons: old(self).buttons & !mask,
                        ..*old(self)
                    })
                    &&& e == Some(
                        InputEvent::MouseRelease { button, buttons: old(self).buttons & !mask },
                    )
                },
            },
    {
        let (number, mask): (u8, u32) = match key {
            MouseKey::Left => (button::LEFT, button_mask::LEFT),
            MouseKey::Right => (button::RIGHT, button_mask::RIGHT),
            MouseKey::Middle => (button::MIDDLE, button_mask::MIDDLE),
            MouseKey::Other => {
                return None;
            },
        };
        if pressed {
            self.buttons = self.buttons | mask;
            Some(InputEvent::MousePress { button: number, buttons: self.buttons })
        } else {
            self.buttons = self.buttons & !mask;
            Some(InputEvent::MouseRelease { button: number, buttons: self.buttons })
        }
    }
}

/// Releasing a button undoes pressing it, and leaves the others as they were.
pub proof fn release_undoes_press(buttons: u32, key: MouseKey, other: MouseKey)
    ensures
        button_of(key) matches Some((_, mask)) ==> buttons & mask == 0 ==> (buttons | mask) & !mask
            == buttons,
        key != other ==> (button_of(key) matches Some((_, mask)) ==> (button_of(other) matches Some(
            (_, bit),
        ) ==> (buttons | mask) & bit == buttons & bit && (buttons & !mask) & bit == buttons & bit)),
{
    assert(buttons & 1 == 0 ==> (buttons | 1) & !1u32 == buttons) by (bit_vector);
    assert(buttons & 2 == 0 ==> (buttons | 2) & !2u32 == buttons) by (bit_vector);
    assert(buttons & 4 == 0 ==> (buttons | 4) & !4u32 == buttons) by (bit_vector);
    assert((buttons | 1) & 2 == buttons & 2 && (buttons | 1) & 4 == buttons & 4 && (buttons | 2) & 1
        == buttons & 1 && (buttons | 2) & 4 == buttons & 4 && (buttons | 4) & 1 == buttons & 1 && (
    buttons | 4) & 2 == buttons & 2) by (bit_vector);
    assert((buttons & !1u32) & 2 == buttons & 2 && (buttons & !1u32) & 4 == buttons & 4 && (buttons
        & !2u32) & 1 == buttons & 1 && (buttons & !2u32) & 4 == buttons & 4 && (buttons & !4u32) & 1
        == buttons & 1 && (buttons & !4u32) & 2 == buttons & 2) by (bit_vector);
}

} // verus!
