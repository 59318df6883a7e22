//! Which channels a client attaches to, and how large its mailboxes are.

use vstd::prelude::*;

use crate::client::error::{ClientError, Result};
use crate::client::events::{ClientEvent, MouseMode};
use crate::net::client as bootstrap;
use crate::net::client::has_channel;
use crate::proto::enums::ChannelType;
use crate::proto::main_chan::Init;
use crate::proto::types::ChannelId;

verus! {

/// Size of the internal event / input mailboxes. Generous enough that a UI
/// thread will not stall a GPU-backed stream of draws, small enough that
/// backpressure surfaces if the embedder falls behind.
pub const CHANNEL_CAPACITY: usize = 256;

/// Configuration knobs of a connection.
#[derive(Debug, Clone, Copy, PartialEq, Eq, Structural)]
pub struct SpiceClientBuilder {
    pub attach_display: bool,
    pub attach_inputs: bool,
    pub attach_cursor: bool,
    pub event_capacity: usize,
    pub input_capacity: usize,
}

/// What to attach to.
#[derive(Debug, Clone, Copy, PartialEq, Eq, Structural)]
pub struct AttachPlan {
    pub display: bool,
    pub inputs: bool,
    pub cursor: bool,
    /// The cursor channel was wanted and the server has none: the cursor will
    /// be invisible in SERVER mouse mode.
    pub cursor_missing: bool,
}

impl AttachPlan {
    /// The sub-channels to open, in order.
    pub open spec fn order(self) -> Seq<ChannelType> {
        let display = if self.display {
            seq![ChannelType::Display]
        } else {
            Seq::empty()
        };
        let inputs = if self.inputs {
            seq![ChannelType::Inputs]
        } else {
            Seq::empty()
        };
        let cursor = if self.cursor {
            seq![ChannelType::Cursor]
        } else {
            Seq::empty()
        };
        display + inputs + cursor
    }

    /// The sub-channels to open, in order.
    pub fn channels(&self) -> (v: Vec<ChannelType>)
        ensures
            v@ == self.order(),
    {
        let mut v: Vec<ChannelType> = Vec::new();
        if self.display {
            v.push(ChannelType::Display);
        }
        if self.inputs {
            v.push(ChannelType::Inputs);
        }
        if self.cursor {
            v.push(ChannelType::Cursor);
        }
        assert(v@ =~= self.order());
        v
    }
}

/// The event that comes before all others: the mouse mode that `MAIN_INIT`
/// reported. The server sends a mode of its own only on change, so this lets
/// the embedder pick its input strategy.
pub fn first_event(init: &Init) -> (e: ClientEvent)
    ensures
        e == ClientEvent::MouseMode(MouseMode::of(init.current_mouse_mode)),
{
    ClientEvent::MouseMode(MouseMode::from_raw(init.current_mouse_mode))
}

impl Default for SpiceClientBuilder {
    fn default() -> (b: Self)
        ensures
            b == Self::standard(),
    {
        Self {
            attach_display: true,
            attach_inputs: true,
            attach_cursor: true,
            event_capacity: CHANNEL_CAPACITY,
            input_capacity: CHANNEL_CAPACITY,
        }
    }
}

impl SpiceClientBuilder {
    /// Every channel, and mailboxes of the usual size.
    pub open spec fn standard() -> SpiceClientBuilder {
        SpiceClientBuilder {
            attach_display: true,
            attach_inputs: true,
            attach_cursor: true,
            event_capacity: CHANNEL_CAPACITY,
            input_capacity: CHANNEL_CAPACITY,
        }
    }

    pub fn new() -> (b: Self)
        ensures
            b == Self::standard(),
    {
        Self::default()
    }

    /// Open the display sub-channel. Defaults to true.
    pub fn display(self, v: bool) -> (b: Self)
        ensures
            b == (SpiceClientBuilder { attach_display: v, ..self }),
    {
        Self { attach_display: v, ..self }
    }

    /// Open the inputs sub-channel. Defaults to true.
    pub fn inputs(self, v: bool) -> (b: Self)
        ensures
            b == (SpiceClientBuilder { attach_inputs: v, ..self }),
    {
        Self { attach_inputs: v, ..self }
    }

    /// Open the cursor sub-channel. Defaults to true. In SERVER mouse mode the
    /// guest does not paint the cursor into the framebuffer, so turning this
    /// off means the user sees no cursor at all.
    pub fn cursor(self, v: bool) -> (b: Self)
        ensures
            b == (SpiceClientBuilder { attach_cursor: v, ..self }),
    {
        Self { attach_cursor: v, ..self }
    }

    /// A mailbox holds at least one event.
    pub fn event_capacity(self, n: usize) -> (b: Self)
        ensures
            b == (SpiceClientBuilder {
                event_capacity: if n == 0 {
                    1
                } else {
                    n
                },
                ..self
            }),
    {
        Self {
            event_capacity: if n == 0 {
                1
            } else {
                n
            },
            ..self
        }
    }

    /// A mailbox holds at least one event.
    pub fn input_capacity(self, n: usize) -> (b: Self)
        ensures
            b == (SpiceClientBuilder {
                input_capacity: if n == 0 {
                    1
                } else {
                    n
                },
                ..self
            }),
    {
        Self {
            input_capacity: if n == 0 {
                1
            } else {
                n
            },
            ..self
        }
    }

    /// What to attach to, given the channels that the server lists. A display
    /// or inputs channel that is wanted and not listed is an error. The cursor
    /// is soft-required: in CLIENT mouse mode the local OS paints it, so its
    /// absence is only a problem in SERVER mode.
    pub fn plan(&self, channels: &[ChannelId]) -> (r: Result<AttachPlan>)
        ensures
            r == (if self.attach_display && !bootstrap::offers(channels@, ChannelType::Display) {
                Err(ClientError::MissingChannel("display"))
            } else if self.attach_inputs && !bootstrap::offers(channels@, ChannelType::Inputs) {
                Err(ClientError::MissingChannel("inputs"))
            } else {
                Ok(
                    AttachPlan {
                        display: self.attach_display,
                        inputs: self.attach_inputs,
                        cursor: self.attach_cursor && bootstrap::offers(
                            channels@,
                            ChannelType::Cursor,
                        ),
                        cursor_missing: self.attach_cursor && !bootstrap::offers(
                            channels@,
                            ChannelType::Cursor,
                        ),
                    },
                )
            }),
    {
        if self.attach_display && !has_channel(channels, ChannelType::Display) {
            return Err(ClientError::MissingChannel("display"));
        }
        if self.attach_inputs && !has_channel(channels, ChannelType::Inputs) {
            return Err(ClientError::MissingChannel("inputs"));
        }
        let has_cursor: bool = has_channel(channels, ChannelType::Cursor);
        Ok(
            AttachPlan {
                display: self.attach_display,
                inputs: self.attach_inputs,
                cursor: self.attach_cursor && has_cursor,
                cursor_missing: self.attach_cursor && !has_cursor,
            },
        )
    }
}

} // verus!
