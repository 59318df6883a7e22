//! Event-driven SPICE client.
//!
//! A GUI can embed this crate and treat SPICE as a stream of
//! [`ClientEvent`]s plus a small send surface for input. Each channel has a
//! handler here that takes one message and gives the messages to send and the
//! events to raise; reading and writing sockets is left to the caller.

pub mod ack;
pub mod builder;
pub mod cursor;
pub mod display;
pub mod error;
pub mod events;
pub mod images;
pub mod inputs;
pub mod main_task;
pub mod messages;
pub mod mjpeg;
pub mod pictures;

pub use crate::proto::display::{Head as MonitorHead, SurfaceCreate};
pub use crate::proto::stream::VideoCodec;
pub use builder::{first_event, AttachPlan, SpiceClientBuilder};
pub use error::{ClientError, Result};
pub use events::{
    ClientEvent, CursorEvent, DisplayEvent, InputEvent, MouseMode, Rect, RegionPixels,
    SurfaceFormat,
};
