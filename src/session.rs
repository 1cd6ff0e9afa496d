//! One connection's life: how it is classified, how its credential is
//! judged, which frames it forwards and what each inbound message leads to.
use crate::auth::{gate_outcome, judge_first, AuthState, Credential, Inbound};
use crate::bus::{admits, FrameCursor};
use vstd::prelude::*;
use vstd::utf8::encode_utf8;

verus! {

/// The header line that marks a request to switch to the framed protocol:
/// the bytes of `Upgrade: websocket`.
pub open spec fn upgrade_marker() -> Seq<u8> {
    seq![
        85u8, 112u8, 103u8, 114u8, 97u8, 100u8, 101u8, 58u8, 32u8,
        119u8, 101u8, 98u8, 115u8, 111u8, 99u8, 107u8, 101u8, 116u8,
    ]
}

/// Whether `needle` occurs in `hay` starting at `i`.
pub open spec fn occurs_at(hay: Seq<u8>, needle: Seq<u8>, i: int) -> bool {
    0 <= i && i + needle.len() <= hay.len() && hay.subrange(i, i + needle.len()) == needle
}

/// Whether `needle` occurs anywhere in `hay`.
pub open spec fn occurs_in(hay: Seq<u8>, needle: Seq<u8>) -> bool {
    exists|i: int| occurs_at(hay, needle, i)
}

/// What a new connection asks for.
#[derive(PartialEq, Eq, Structural, Clone, Copy, Debug)]
pub enum ConnKind {
    /// A switch to the framed message protocol.
    Upgrade,
    /// A plain page request.
    PlainContent,
}

fn occurs_at_exec(hay: &[u8], needle: &Vec<u8>, i: usize) -> (r: bool)
    requires
        i + needle@.len() <= hay@.len(),
    ensures
        r == occurs_at(hay@, needle@, i as int),
{
    let hay_len: usize = hay.len();
    let mut j: usize = 0;
    while j < needle.len()
        invariant
            hay_len == hay@.len(),
            i + needle@.len() <= hay@.len(),
            j <= needle@.len(),
            forall|k: int| 0 <= k < j ==> hay@[i + k] == needle@[k],
        decreases needle@.len() - j,
    {
        if hay[i + j] != needle[j] {
            assert(hay@.subrange(i as int, i + needle@.len())[j as int] != needle@[j as int]);
            return false;
        }
        j = j + 1;
    }
    assert(hay@.subrange(i as int, i + needle@.len()) =~= needle@);
    true
}

/// Classifies a connection by the first bytes of its request: an upgrade
/// exactly when they hold the line `Upgrade: websocket`.
pub fn classify_request(head: &[u8]) -> (r: ConnKind)
    ensures
        r == (if occurs_in(head@, upgrade_marker()) {
            ConnKind::Upgrade
        } else {
            ConnKind::PlainContent
        }),
{
    let needle: Vec<u8> = vec![
        85u8, 112u8, 103u8, 114u8, 97u8, 100u8, 101u8, 58u8, 32u8,
        119u8, 101u8, 98u8, 115u8, 111u8, 99u8, 107u8, 101u8, 116u8,
    ];
    assert(needle@ =~= upgrade_marker());
    let n = needle.len();
    let len: usize = head.len();
    if len < n {
        assert forall|i: int| !occurs_at(head@, upgrade_marker(), i) by {}
        return ConnKind::PlainContent;
    }
    let last: usize = len - n;
    let mut i: usize = 0;
    while i <= last
        invariant
            needle@ == upgrade_marker(),
            n == needle@.len(),
            n == 18,
            len == head@.len(),
            last + n == len,
            forall|k: int| 0 <= k < i ==> !occurs_at(head@, needle@, k),
        decreases last + 1 - i,
    {
        if occurs_at_exec(head, &needle, i) {
            return ConnKind::Upgrade;
        }
        i = i + 1;
    }
    assert forall|k: int| !occurs_at(head@, upgrade_marker(), k) by {
        if 0 <= k < i {
        }
    }
    ConnKind::PlainContent
}

/// The part a session plays.
#[derive(PartialEq, Eq, Structural, Clone, Copy, Debug)]
pub enum Role {
    /// Streams captured frames to a viewer and takes its control events.
    Streamer,
    /// Exchanges messages with the other peers of a relay.
    RelayPeer,
}

/// What the session does with an inbound message.
#[derive(PartialEq, Eq, Structural, Clone, Copy, Debug)]
pub enum SessionAction {
    /// Tear the session down.
    Close,
    /// Hand the text to the input dispatcher.
    Dispatch,
    /// Pass the message on to every other peer.
    Relay,
    /// Drop the message; the session goes on.
    Ignore,
}

/// The action an inbound message leads to. Before the credential has
/// opened the session, nothing but closing is possible.
pub open spec fn inbound_action(role: Role, state: AuthState, msg: Inbound) -> SessionAction {
    if state != AuthState::Authenticated {
        SessionAction::Close
    } else {
        match msg {
            Inbound::Closed => SessionAction::Close,
            Inbound::Other => SessionAction::Ignore,
            Inbound::Text(_) => if role == Role::Streamer {
                SessionAction::Dispatch
            } else {
                SessionAction::Relay
            },
            Inbound::Binary(_) => if role == Role::Streamer {
                SessionAction::Ignore
            } else {
                SessionAction::Relay
            },
        }
    }
}

/// A session: its role, where it stands with its credential, and its read
/// position on the frame bus.
pub struct Session {
    pub role: Role,
    pub state: AuthState,
    pub cursor: FrameCursor,
}

impl Session {
    /// A fresh session that has not yet seen its credential.
    pub fn new(role: Role) -> (r: Session)
        ensures
            r.role == role,
            r.state == AuthState::AwaitingAuth,
            r.cursor.last is None,
    {
        Session { role, state: AuthState::AwaitingAuth, cursor: FrameCursor::new() }
    }

    /// Judges the first message. This happens once: a session that has
    /// already been judged keeps its state and gets `false`.
    pub fn authenticate(&mut self, cred: &Credential, first: &Inbound) -> (r: bool)
        ensures
            final(self).role == old(self).role,
            final(self).cursor == old(self).cursor,
            old(self).state == AuthState::AwaitingAuth ==> final(self).state == gate_outcome(*cred, *first),
            old(self).state != AuthState::AwaitingAuth ==> final(self).state == old(self).state && !r,
            r == (old(self).state == AuthState::AwaitingAuth && final(self).state == AuthState::Authenticated),
    {
        if self.state != AuthState::AwaitingAuth {
            return false;
        }
        let outcome = judge_first(cred, first);
        self.state = outcome;
        outcome == AuthState::Authenticated
    }

    /// Whether the frame numbered `seq` goes out on this session. Only an
    /// authenticated session forwards frames, each number at most once and
    /// in increasing order.
    pub fn offer_frame(&mut self, seq: u64) -> (r: bool)
        ensures
            final(self).role == old(self).role,
            final(self).state == old(self).state,
            r == (old(self).state == AuthState::Authenticated && admits(old(self).cursor.last, seq)),
            final(self).cursor.last == (if r { Some(seq) } else { old(self).cursor.last }),
    {
        if self.state != AuthState::Authenticated {
            return false;
        }
        self.cursor.accept(seq)
    }

    /// What to do with an inbound message.
    pub fn on_inbound(&self, msg: &Inbound) -> (r: SessionAction)
        ensures
            r == inbound_action(self.role, self.state, *msg),
    {
        if self.state != AuthState::Authenticated {
            return SessionAction::Close;
        }
        match msg {
            Inbound::Closed => SessionAction::Close,
            Inbound::Other => SessionAction::Ignore,
            Inbound::Text(_) => if self.role == Role::Streamer {
                SessionAction::Dispatch
            } else {
                SessionAction::Relay
            },
            Inbound::Binary(_) => if self.role == Role::Streamer {
                SessionAction::Ignore
            } else {
                SessionAction::Relay
            },
        }
    }
}

/// A session is authenticated exactly when its first message is the token
/// as text; a session that is not closes on whatever arrives next and, as
/// `offer_frame` states, forwards no frame.
pub proof fn lemma_gate(role: Role, cred: Credential, first: Inbound, next: Inbound)
    ensures
        (gate_outcome(cred, first) == AuthState::Authenticated) == (match first {
            Inbound::Text(t) => encode_utf8(t@) == cred.token(),
            _ => false,
        }),
        gate_outcome(cred, first) != AuthState::Authenticated ==> inbound_action(
            role,
            gate_outcome(cred, first),
            next,
        ) == SessionAction::Close,
{
}

} // verus!
