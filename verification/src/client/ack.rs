//! SPICE per-channel flow control.
//!
//! The server emits `SET_ACK { generation, window }`. The client replies with
//! one `ACK_SYNC` immediately, then sends `MSGC_ACK` after every `window`
//! messages it processes. The messages that control the window itself do not
//! count.

use vstd::prelude::*;

use crate::proto::enums::msg;

verus! {

/// Where a channel stands in its window.
#[derive(Debug, Clone, Copy, PartialEq, Eq, Structural)]
pub struct AckState {
    /// 0 means no `SET_ACK` seen yet (no ACK needed).
    pub window: u32,
    /// Decrements with each processed message; when it hits 0 an ACK is due
    /// and it starts again from `window`.
    pub remaining: u32,
}

impl Default for AckState {
    fn default() -> (s: Self)
        ensures
            s == Self::idle(),
    {
        Self { window: 0, remaining: 0 }
    }
}

impl AckState {
    /// Before any window was set.
    pub open spec fn idle() -> AckState {
        AckState { window: 0, remaining: 0 }
    }

    /// At the start of a window.
    pub open spec fn fresh(window: u32) -> AckState {
        AckState { window, remaining: window }
    }

    /// Some of the window is left, where there is one.
    pub open spec fn wf(self) -> bool {
        self.window > 0 ==> 0 < self.remaining <= self.window
    }

    /// After one more message.
    pub open spec fn noted(self) -> AckState {
        if self.window == 0 {
            self
        } else if self.remaining == 1 {
            Self::fresh(self.window)
        } else {
            AckState { window: self.window, remaining: (self.remaining - 1) as u32 }
        }
    }

    /// One more message ends the window.
    pub open spec fn due(self) -> bool {
        self.window > 0 && self.remaining == 1
    }

    /// After `n` more messages.
    pub open spec fn after(self, n: nat) -> AckState
        decreases n,
    {
        if n == 0 {
            self
        } else {
            self.after((n - 1) as nat).noted()
        }
    }

    pub fn on_set_ack(&mut self, window: u32)
        ensures
            *final(self) == Self::fresh(window),
            final(self).wf(),
    {
        self.window = window;
        self.remaining = window;
    }

    /// Returns true when the window has been exhausted and the caller should
    /// send `MSGC_ACK`.
    pub fn note_message(&mut self) -> (due: bool)
        requires
            old(self).wf(),
        ensures
            *final(self) == old(self).noted(),
            due == old(self).due(),
            final(self).wf(),
    {
        if self.window == 0 {
            return false;
        }
        self.remaining = self.remaining - 1;
        if self.remaining == 0 {
            self.remaining = self.window;
            true
        } else {
            false
        }
    }
}

/// A message of this type counts toward the window.
pub open spec fn counts(msg_type: u16) -> bool {
    msg_type != msg::SET_ACK && msg_type != msg::PING && msg_type != msg::MIGRATE && msg_type
        != msg::MIGRATE_DATA
}

/// A message of this type counts toward the window.
pub fn is_counted(msg_type: u16) -> (b: bool)
    ensures
        b == counts(msg_type),
{
    msg_type != msg::SET_ACK && msg_type != msg::PING && msg_type != msg::MIGRATE && msg_type
        != msg::MIGRATE_DATA
}

/// In a window of `w`, exactly every `w`-th message is acknowledged.
pub proof fn acks_are_one_per_window(w: u32, n: nat)
    requires
        w > 0,
    ensures
        AckState::fresh(w).after(n) == (AckState {
            window: w,
            remaining: (w - n % (w as nat)) as u32,
        }),
        AckState::fresh(w).after(n).due() <==> (n + 1) % (w as nat) == 0,
    decreases n,
{
    let k = w as nat;
    if n > 0 {
        acks_are_one_per_window(w, (n - 1) as nat);
        lemma_step((n - 1) as nat, k);
    }
    lemma_step(n, k);
}

proof fn lemma_step(n: nat, k: nat)
    requires
        k > 0,
    ensures
        n % k < k,
        (n + 1) % k == (if n % k == k - 1 {
            0
        } else {
            (n % k + 1) as nat
        }),
{
    assert(n % k < k && (n + 1) % k == (if n % k == k - 1 {
        0
    } else {
        (n % k + 1) as nat
    })) by (nonlinear_arith)
        requires
            k > 0,
    ;
}

/// Without a window nothing is ever acknowledged.
pub proof fn no_window_no_acks(n: nat)
    ensures
        AckState::idle().after(n) == AckState::idle(),
        !AckState::idle().after(n).due(),
    decreases n,
{
    if n > 0 {
        no_window_no_acks((n - 1) as nat);
    }
}

} // verus!
