//! Where the keys of a keyboard stand, and the codes that follow from it.

use vstd::prelude::*;

use crate::client::events::InputEvent;
use crate::client::inputs;
use crate::client::messages;
use crate::proto::layout::value;
use crate::viewer::input::{
    button_of, key_told, onto, released, scancode_of, Key, MouseKey, Pointer,
};

verus! {

/// The top row, from Escape on.
pub open spec fn top_row() -> Seq<Key> {
    seq![
        Key::Escape,
        Key::Digit1,
        Key::Digit2,
        Key::Digit3,
        Key::Digit4,
        Key::Digit5,
        Key::Digit6,
        Key::Digit7,
        Key::Digit8,
        Key::Digit9,
        Key::Digit0,
        Key::Minus,
        Key::Equal,
        Key::Backspace,
    ]
}

/// The row of Q to P, from Tab on.
pub open spec fn upper_row() -> Seq<Key> {
    seq![
        Key::Tab,
        Key::KeyQ,
        Key::KeyW,
        Key::KeyE,
        Key::KeyR,
        Key::KeyT,
        Key::KeyY,
        Key::KeyU,
        Key::KeyI,
        Key::KeyO,
        Key::KeyP,
        Key::BracketLeft,
        Key::BracketRight,
        Key::Enter,
    ]
}

/// The row of A to L, from the left control key on.
pub open spec fn home_row() -> Seq<Key> {
    seq![
        Key::ControlLeft,
        Key::KeyA,
        Key::KeyS,
        Key::KeyD,
        Key::KeyF,
        Key::KeyG,
        Key::KeyH,
        Key::KeyJ,
        Key::KeyK,
        Key::KeyL,
        Key::Semicolon,
        Key::Quote,
        Key::Backquote,
    ]
}

/// The row of Z to M, from the left shift key on.
pub open spec fn lower_row() -> Seq<Key> {
    seq![
        Key::ShiftLeft,
        Key::Backslash,
        Key::KeyZ,
        Key::KeyX,
        Key::KeyC,
        Key::KeyV,
        Key::KeyB,
        Key::KeyN,
        Key::KeyM,
        Key::Comma,
        Key::Period,
        Key::Slash,
        Key::ShiftRight,
    ]
}

/// The bottom row, and the function keys that come after it.
pub open spec fn space_row() -> Seq<Key> {
    seq![
        Key::AltLeft,
        Key::Space,
        Key::CapsLock,
        Key::F1,
        Key::F2,
        Key::F3,
        Key::F4,
        Key::F5,
        Key::F6,
        Key::F7,
        Key::F8,
        Key::F9,
        Key::F10,
    ]
}

/// A cell of the numeric pad, by its row from the top and its column from the
/// left. The pad has four columns, and its first cell has the code `0x47`.
pub open spec fn pad_code(row: int, column: int) -> int {
    0x47 + 4 * row + column
}

/// The keys of each row have consecutive codes, in the order in which they
/// stand; and each row goes on where the one above it ends, but for the code
/// `0x37` before the bottom row.
pub proof fn rows_are_coded_in_order(i: int)
    ensures
        0 <= i < 14 ==> scancode_of(top_row()[i]) == 0x01 + i,
        0 <= i < 14 ==> scancode_of(upper_row()[i]) == 0x0f + i,
        0 <= i < 13 ==> scancode_of(home_row()[i]) == 0x1d + i,
        0 <= i < 13 ==> scancode_of(lower_row()[i]) == 0x2a + i,
        0 <= i < 13 ==> scancode_of(space_row()[i]) == 0x38 + i,
{
}

/// The keys between the letters and the numeric pad have the codes of the
/// pad's cells that do the same, and the right control and alt keys those of
/// the left ones, behind a prefix of `0xe0`. The keys with a flag come after
/// these.
pub proof fn extended_keys_have_a_prefix(key: Key)
    ensures
        scancode_of(Key::ControlRight) == 256 * 0xe0 + scancode_of(Key::ControlLeft),
        scancode_of(Key::AltRight) == 256 * 0xe0 + scancode_of(Key::AltLeft),
        scancode_of(Key::Home) == 256 * 0xe0 + pad_code(0, 0),
        scancode_of(Key::ArrowUp) == 256 * 0xe0 + pad_code(0, 1),
        scancode_of(Key::PageUp) == 256 * 0xe0 + pad_code(0, 2),
        scancode_of(Key::ArrowLeft) == 256 * 0xe0 + pad_code(1, 0),
        scancode_of(Key::ArrowRight) == 256 * 0xe0 + pad_code(1, 2),
        scancode_of(Key::End) == 256 * 0xe0 + pad_code(2, 0),
        scancode_of(Key::ArrowDown) == 256 * 0xe0 + pad_code(2, 1),
        scancode_of(Key::PageDown) == 256 * 0xe0 + pad_code(2, 2),
        scancode_of(Key::Insert) == 256 * 0xe0 + pad_code(2, 3),
        scancode_of(Key::Delete) == 256 * 0xe0 + pad_code(3, 0),
        scancode_of(Key::SuperLeft) == 256 * 0xe0 + 0x5b,
        scancode_of(Key::SuperRight) == scancode_of(Key::SuperLeft) + 1,
        scancode_of(key) / 256 == 0 || scancode_of(key) / 256 == 0xe0,
        scancode_of(key) % 256 < 0x80,
{
}

/// A key is released by its code and the break bit: the one of worth 128, set
/// in the low byte, and nothing else.
pub proof fn release_sets_the_break_bit(key: Key, code: u32)
    ensures
        released(scancode_of(key)) == scancode_of(key) + 0x80,
        code % 256 < 128 ==> released(code) == code + 128,
        code % 256 >= 128 ==> released(code) == code,
{
}

/// From left to right the buttons of a mouse are the first, the second and the
/// third; and each has the bit that is worth twice the one before.
pub proof fn buttons_are_numbered_from_the_left(i: int)
    requires
        0 <= i < 3,
    ensures
        ({
            let keys = seq![MouseKey::Left, MouseKey::Middle, MouseKey::Right];
            let bits = seq![1u32, 2u32, 4u32];
            button_of(keys[i]) == Some(((i + 1) as u8, bits[i]))
        }),
        button_of(MouseKey::Other) is None,
{
}

/// A coordinate is brought to the nearest one on the axis.
pub proof fn coordinates_go_to_the_nearest_pixel(v: i64, n: u32, other: int)
    requires
        0 < n,
        0 <= other < n,
    ensures
        0 <= onto(v, n) < n,
        0 <= v < n ==> onto(v, n) == v,
        v >= other ==> v - onto(v, n) <= v - other || onto(v, n) >= other,
        v <= other ==> onto(v, n) - v <= other - v || onto(v, n) <= other,
        v < 0 ==> onto(v, n) == 0,
        v >= n ==> onto(v, n) == n - 1,
{
}

/// A key that goes down is sent by a message of type 101 with its code, one that
/// comes up by one of type 102 with its code and the break bit.
pub proof fn keys_go_out_with_their_codes(key: Key)
    ensures
        ({
            let (kind, bytes) = inputs::event_message(key_told(key, true));
            kind == 101 && bytes.len() == 4 && value(bytes, 0, 4) == scancode_of(key)
        }),
        ({
            let (kind, bytes) = inputs::event_message(key_told(key, false));
            kind == 102 && bytes.len() == 4 && value(bytes, 0, 4) == scancode_of(key) + 0x80
        }),
{
    messages::keys_are_sent_so(scancode_of(key), 0);
    messages::keys_are_sent_so(released(scancode_of(key)), 0);
    release_sets_the_break_bit(key, 0);
}

/// A button that goes down has its bit in the state set, one that comes up has
/// it cleared, and the other bits and the place stay; the event has the button
/// and the state after it. Of other buttons nothing is told.
pub proof fn buttons_are_held_as_bits(p: Pointer, i: int, pressed: bool)
    requires
        0 <= i < 3,
    ensures
        ({
            let key = seq![MouseKey::Left, MouseKey::Middle, MouseKey::Right][i];
            let bit = seq![1int, 2int, 4int][i];
            let (after, event) = p.clicked(key, pressed);
            let held = p.buttons as int / bit % 2 == 1;
            &&& after.x == p.x
            &&& after.y == p.y
            &&& after.buttons == p.buttons + if pressed && !held {
                bit
            } else if !pressed && held {
                -bit
            } else {
                0
            }
            &&& event == Some(
                if pressed {
                    InputEvent::MousePress { button: (i + 1) as u8, buttons: after.buttons }
                } else {
                    InputEvent::MouseRelease { button: (i + 1) as u8, buttons: after.buttons }
                },
            )
        }),
        p.clicked(MouseKey::Other, pressed) == (p, None::<InputEvent>),
{
    let b = p.buttons;
    assert(b | 1 == b + (1 - b % 2) && b & !1u32 == b - b % 2) by (bit_vector);
    assert(b | 2 == b + (1 - b / 2 % 2) * 2 && b & !2u32 == b - (b / 2 % 2) * 2) by (bit_vector);
    assert(b | 4 == b + (1 - b / 4 % 2) * 4 && b & !4u32 == b - (b / 4 % 2) * 4) by (bit_vector);
    if i == 0 {
        assert(b as int / 1 == b);
    } else if i == 1 {
        assert(seq![1int, 2int, 4int][i] == 2);
    } else {
        assert(seq![1int, 2int, 4int][i] == 4);
    }
}

} // verus!
