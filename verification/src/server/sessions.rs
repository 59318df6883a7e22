//! The server's key, password and live sessions.

use std::collections::HashSet;

use rand::RngCore;
use vstd::prelude::*;
use vstd::std_specs::hash::*;
use vstd::string::*;

use crate::net::error::{NetError, Result};
use crate::net::server as link_server;
use crate::net::server::{ServerKey, ServerLinkOptions};
use crate::proto::caps;
use crate::proto::caps::common::{AUTH_SPICE, MINI_HEADER};
use crate::proto::enums::{ChannelType, LinkError, SPICE_TICKET_PUBKEY_BYTES};

verus! {

broadcast use group_hash_axioms;

/// `rand::RngCore::next_u32` of the operating system's randomness. Nothing is
/// said of the number, which is a different one at each call.
#[verifier::external_body]
fn random_u32() -> (v: u32) {
    rand::rngs::OsRng.next_u32()
}

/// A server: what clients have to know, and who is connected.
pub struct Server {
    priv_key: ServerKey,
    password: String,
    sessions: HashSet<u32>,
}

/// An id that a new session can get: not zero, so clients can distinguish a new
/// session from a reattach, and not in use.
pub open spec fn free(live: Set<u32>, id: u32) -> bool {
    id != 0 && !live.contains(id)
}

/// The id `k` after `start`. Ids wrap.
pub open spec fn nth(start: u32, k: int) -> u32 {
    ((start + k) % 4294967296) as u32
}

/// The first free id from `start` on.
pub open spec fn is_first_free(live: Set<u32>, start: u32, id: u32) -> bool {
    exists|k: int|
        #![trigger nth(start, k)]
        {
            &&& 0 <= k < 4294967296
            &&& id == nth(start, k)
            &&& free(live, id)
            &&& forall|j: int| 0 <= j < k ==> !free(live, #[trigger] nth(start, j))
        }
}

impl Server {
    /// The ids of the live sessions.
    pub closed spec fn live(self) -> Set<u32> {
        self.sessions@
    }

    /// The key that tickets are encrypted for.
    pub closed spec fn key(self) -> ServerKey {
        self.priv_key
    }

    /// The password that clients have to know.
    pub closed spec fn expected(self) -> Seq<char> {
        self.password@
    }

    /// Sessions are finitely many, and none is zero.
    pub open spec fn wf(self) -> bool {
        self.live().finite() && !self.live().contains(0)
    }

    /// Generate a fresh 1024-bit RSA keypair and build a server.
    pub fn new(password: &str) -> (r: Result<Self>)
        ensures
            match r {
                Ok(s) => {
                    &&& s.wf()
                    &&& s.live() == Set::<u32>::empty()
                    &&& s.expected() == password@
                    &&& link_server::public_der_of(s.key().der()) matches Some(d) && d.len()
                        == SPICE_TICKET_PUBKEY_BYTES
                },
                Err(e) => e is RsaEncrypt,
            },
    {
        match ServerKey::generate() {
            Ok(key) => Ok(Self::with_key(key, password)),
            Err(e) => Err(e),
        }
    }

    pub fn with_key(priv_key: ServerKey, password: &str) -> (s: Self)
        ensures
            s.wf(),
            s.live() == Set::<u32>::empty(),
            s.expected() == password@,
            s.key() == priv_key,
    {
        Self { priv_key, password: String::from_str(password), sessions: HashSet::new() }
    }

    /// Open a session under a random id.
    pub fn new_session_id(&mut self) -> (id: u32)
        requires
            old(self).wf(),
            old(self).live().len() < u32::MAX,
        ensures
            final(self).wf(),
            free(old(self).live(), id),
            final(self).live() == old(self).live().insert(id),
            final(self).key() == old(self).key(),
            final(self).expected() == old(self).expected(),
    {
        let candidate: u32 = random_u32();
        self.open_session(candidate)
    }

    /// Open a session under the first free id from `candidate` on.
    pub fn open_session(&mut self, candidate: u32) -> (id: u32)
        requires
            old(self).wf(),
            old(self).live().len() < u32::MAX,
        ensures
            final(self).wf(),
            is_first_free(old(self).live(), candidate, id),
            free(old(self).live(), id),
            final(self).live() == old(self).live().insert(id),
            final(self).key() == old(self).key(),
            final(self).expected() == old(self).expected(),
    {
        let mut id: u32 = candidate;
        let ghost live = self.live();
        let ghost mut k: int = 0;
        let ghost mut tried: Set<u32> = Set::empty();
        assert(nth(candidate, 0) == candidate);
        while id == 0 || self.sessions.contains(&id)
            invariant
                *self == *old(self),
                live == self.live(),
                live.finite(),
                live.len() < u32::MAX,
                !live.contains(0),
                0 <= k < 4294967296,
                id == nth(candidate, k),
                forall|j: int| 0 <= j < k ==> !free(live, #[trigger] nth(candidate, j)),
                tried.finite(),
                tried.len() == k,
                forall|x: u32| #[trigger] tried.contains(x) ==> x == 0 || live.contains(x),
                forall|x: u32| #[trigger]
                    tried.contains(x) ==> exists|j: int| 0 <= j < k && x == nth(candidate, j),
            decreases 4294967296 - k,
        {
            proof {
                assert(!tried.contains(id)) by {
                    if tried.contains(id) {
                        let j = choose|j: int| 0 <= j < k && id == nth(candidate, j);
                        assert(false);
                    }
                }
                let more = tried.insert(id);
                assert(more.subset_of(live.insert(0)));
                vstd::set_lib::lemma_len_subset(more, live.insert(0));
                assert forall|x: u32| #[trigger] more.contains(x) implies exists|j: int|
                    0 <= j < k + 1 && x == nth(candidate, j) by {
                    if x == id {
                        assert(x == nth(candidate, k));
                    } else {
                        let j = choose|j: int| 0 <= j < k && x == nth(candidate, j);
                        assert(0 <= j < k + 1 && x == nth(candidate, j));
                    }
                }
                tried = more;
                k = k + 1;
            }
            id = if id == u32::MAX {
                0
            } else {
                id + 1
            };
        }
        self.sessions.insert(id);
        id
    }

    /// The session is live: opened here and not ended.
    pub fn is_live_session(&self, id: u32) -> (b: bool)
        ensures
            b == self.live().contains(id),
    {
        self.sessions.contains(&id)
    }

    /// Forget a session.
    pub fn end_session(&mut self, id: u32)
        requires
            old(self).wf(),
        ensures
            final(self).wf(),
            final(self).live() == old(self).live().remove(id),
            final(self).key() == old(self).key(),
            final(self).expected() == old(self).expected(),
    {
        self.sessions.remove(&id);
    }

    /// What the link handshake of a client goes by.
    pub fn link_options(&self) -> (o: ServerLinkOptions<'_>)
        ensures
            *o.priv_key == self.key(),
            o.expected_password@ == self.expected(),
            o.server_common_caps.0@ == caps::built(seq![AUTH_SPICE, MINI_HEADER], 2),
            o.server_channel_caps.0@ == Seq::<u32>::empty(),
    {
        ServerLinkOptions::new(&self.priv_key, self.password.as_str())
    }
}

/// What becomes of a link whose handshake succeeded.
#[derive(Debug, Clone, Copy, PartialEq, Eq, Structural)]
pub enum LinkDecision {
    /// A main channel: it gets a session of its own.
    OpenSession,
    /// A sub-channel of a live session.
    Attach,
    /// A sub-channel of a session that is not live.
    Refuse,
}

/// Decide on a link. A main channel always gets a fresh session, whatever id
/// the client claimed: one that it supplied could be used to hijack another
/// user's sub-channels. A sub-channel has to name a live session.
pub fn decide_link(server: &Server, channel_type: ChannelType, connection_id: u32) -> (a: LinkDecision)
    ensures
        a == (if channel_type == ChannelType::Main {
            LinkDecision::OpenSession
        } else if server.live().contains(connection_id) {
            LinkDecision::Attach
        } else {
            LinkDecision::Refuse
        }),
{
    match channel_type {
        ChannelType::Main => LinkDecision::OpenSession,
        _ => if server.is_live_session(connection_id) {
            LinkDecision::Attach
        } else {
            LinkDecision::Refuse
        },
    }
}

/// The handshake failed on a wrong password, or a ticket that could not be
/// decrypted.
pub fn is_password_failure(e: &NetError) -> (b: bool)
    ensures
        b == (*e == NetError::Link(LinkError::PermissionDenied)),
{
    match e {
        NetError::Link(LinkError::PermissionDenied) => true,
        _ => false,
    }
}

/// A session can be attached to from when it is opened until it is ended, and
/// not after: ending one leaves every other as it was.
pub proof fn sessions_live_from_open_to_end(live: Set<u32>, id: u32, other: u32)
    requires
        free(live, id),
        other != id,
    ensures
        live.insert(id).contains(id),
        !live.insert(id).remove(id).contains(id),
        live.insert(id).contains(other) == live.contains(other),
        live.insert(id).remove(id) == live,
{
    assert(live.insert(id).remove(id) =~= live);
}

} // verus!
