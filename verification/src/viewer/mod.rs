//! Viewer core: a framebuffer painted from display events, and input events
//! made from keys and mouse buttons.
//!
//! Painting is best-effort CPU rasterisation into a single buffer of `0RGB`
//! pixels, converted from BGRA at blit time. The window that shows it is left
//! to the caller.

pub mod framebuffer;
pub mod input;
pub mod keyboard;
pub mod paint;
pub mod picture;

pub use framebuffer::Framebuffer;
pub use input::{key_event, scancode, Key, MouseKey, Pointer};
pub use paint::{display_event_to_paint, PaintMsg};
