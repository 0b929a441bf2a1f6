//! The client's connection state machine. It decides; the caller performs
//! what it decides (opening the connection, sending, feeding the battle
//! engine) and reports back elapsed time and incoming messages.
use vstd::prelude::*;
use crate::protocol::{
    party_view, ConnectMessage, ConnectView, MemberView, NetServerMessage, PartyMember, ServerView,
};

verus! {

/// Time between two join requests while the server has not answered, in
/// milliseconds.
pub const RESEND_INTERVAL: u64 = 10_000;

/// How long a refusal stays on screen before the client returns to the
/// address prompt, in milliseconds.
pub const REJECTED_DISPLAY: u64 = 5_000;

#[derive(Clone, Copy, Debug, PartialEq, Eq, Structural)]
pub enum ConnectionState {
    /// Waiting for the user to enter an address.
    Connecting,
    /// Connected; the join request is repeated until the server answers.
    AwaitingConfirm { accumulator: u64 },
    /// Accepted; waiting for the battle to begin.
    AwaitingOpponent,
    /// The battle is running.
    InBattle,
    /// The battle or the connection ended; shown for one tick.
    Closed,
    /// The server refused the client; shown until the countdown runs out.
    RejectedVersion { remaining: u64 },
}

/// What the caller does with a message that the state machine received.
pub enum ClientReaction {
    /// Nothing to do.
    Ignore,
    /// The server accepted the client: send `Join`, with the party the server
    /// offered if it offered one.
    Accepted(Option<Vec<PartyMember>>),
    /// Hand this battle event to the local battle engine.
    Deliver(Vec<u8>),
    /// The message does not belong in this state; it is logged and dropped.
    Unexpected,
}

pub enum ReactionView {
    Ignore,
    Accepted(Option<Seq<MemberView>>),
    Deliver(Seq<u8>),
    Unexpected,
}

impl View for ClientReaction {
    type V = ReactionView;

    open spec fn view(&self) -> ReactionView {
        match self {
            ClientReaction::Ignore => ReactionView::Ignore,
            ClientReaction::Accepted(None) => ReactionView::Accepted(None),
            ClientReaction::Accepted(Some(p)) => ReactionView::Accepted(Some(party_view(p@))),
            ClientReaction::Deliver(b) => ReactionView::Deliver(b@),
            ClientReaction::Unexpected => ReactionView::Unexpected,
        }
    }
}

/// The state after `elapsed` milliseconds without a message, and whether a
/// join request is due.
pub open spec fn tick_spec(s: ConnectionState, elapsed: u64) -> (ConnectionState, bool) {
    match s {
        ConnectionState::AwaitingConfirm { accumulator } => {
            let a = if accumulator + elapsed > u64::MAX {
                u64::MAX
            } else {
                (accumulator + elapsed) as u64
            };
            if a >= RESEND_INTERVAL {
                (ConnectionState::AwaitingConfirm { accumulator: (a - RESEND_INTERVAL) as u64 }, true)
            } else {
                (ConnectionState::AwaitingConfirm { accumulator: a }, false)
            }
        },
        ConnectionState::RejectedVersion { remaining } => {
            if remaining <= elapsed {
                (ConnectionState::Connecting, false)
            } else {
                (ConnectionState::RejectedVersion { remaining: (remaining - elapsed) as u64 }, false)
            }
        },
        ConnectionState::Closed => (ConnectionState::Connecting, false),
        _ => (s, false),
    }
}

/// The state after a message from the server, and what the caller does with it.
pub open spec fn receive_spec(s: ConnectionState, m: ServerView) -> (ConnectionState, ReactionView) {
    match s {
        ConnectionState::AwaitingConfirm { .. } => match m {
            ServerView::Validate(ConnectView::CanJoin(p)) => (
                ConnectionState::AwaitingOpponent,
                ReactionView::Accepted(p),
            ),
            ServerView::Validate(_) => (
                ConnectionState::RejectedVersion { remaining: REJECTED_DISPLAY },
                ReactionView::Ignore,
            ),
            _ => (s, ReactionView::Unexpected),
        },
        ConnectionState::AwaitingOpponent | ConnectionState::InBattle => match m {
            ServerView::Game(e) => (s, ReactionView::Deliver(e)),
            ServerView::Begin => (ConnectionState::InBattle, ReactionView::Ignore),
            ServerView::End => (ConnectionState::Closed, ReactionView::Ignore),
            ServerView::Validate(_) => (
                ConnectionState::RejectedVersion { remaining: REJECTED_DISPLAY },
                ReactionView::Unexpected,
            ),
        },
        _ => (s, ReactionView::Unexpected),
    }
}

impl ConnectionState {
    /// The state a client starts in.
    pub fn new() -> (r: ConnectionState)
        ensures
            r == ConnectionState::Connecting,
    {
        ConnectionState::Connecting
    }

    /// The state after an attempt to open a connection: on success the first
    /// join request is due at once; on failure the client stays at the prompt.
    pub fn connect_result(self, success: bool) -> (r: ConnectionState)
        ensures
            self == ConnectionState::Connecting && success ==> r == (ConnectionState::AwaitingConfirm {
                accumulator: RESEND_INTERVAL,
            }),
            !(self == ConnectionState::Connecting && success) ==> r == self,
    {
        match self {
            ConnectionState::Connecting => if success {
                ConnectionState::AwaitingConfirm { accumulator: RESEND_INTERVAL }
            } else {
                self
            },
            _ => self,
        }
    }

    /// Advances the clock by `elapsed` milliseconds; says whether to send a
    /// join request now.
    pub fn tick(&mut self, elapsed: u64) -> (resend: bool)
        ensures
            (*final(self), resend) == tick_spec(*old(self), elapsed),
    {
        match *self {
            ConnectionState::AwaitingConfirm { accumulator } => {
                let a = accumulator.saturating_add(elapsed);
                if a >= RESEND_INTERVAL {
                    *self = ConnectionState::AwaitingConfirm { accumulator: a - RESEND_INTERVAL };
                    true
                } else {
                    *self = ConnectionState::AwaitingConfirm { accumulator: a };
                    false
                }
            },
            ConnectionState::RejectedVersion { remaining } => {
                if remaining <= elapsed {
                    *self = ConnectionState::Connecting;
                } else {
                    *self = ConnectionState::RejectedVersion { remaining: remaining - elapsed };
                }
                false
            },
            ConnectionState::Closed => {
                *self = ConnectionState::Connecting;
                false
            },
            _ => false,
        }
    }

    /// Takes in one message from the server.
    pub fn receive(&mut self, msg: NetServerMessage) -> (r: ClientReaction)
        ensures
            (*final(self), r@) == receive_spec(*old(self), msg@),
    {
        match *self {
            ConnectionState::AwaitingConfirm { .. } => match msg {
                NetServerMessage::Validate(ConnectMessage::CanJoin(p)) => {
                    *self = ConnectionState::AwaitingOpponent;
                    ClientReaction::Accepted(p)
                },
                NetServerMessage::Validate(_) => {
                    *self = ConnectionState::RejectedVersion { remaining: REJECTED_DISPLAY };
                    ClientReaction::Ignore
                },
                _ => ClientReaction::Unexpected,
            },
            ConnectionState::AwaitingOpponent | ConnectionState::InBattle => match msg {
                NetServerMessage::Game(e) => ClientReaction::Deliver(e),
                NetServerMessage::Begin => {
                    *self = ConnectionState::InBattle;
                    ClientReaction::Ignore
                },
                NetServerMessage::End => {
                    *self = ConnectionState::Closed;
                    ClientReaction::Ignore
                },
                NetServerMessage::Validate(_) => {
                    *self = ConnectionState::RejectedVersion { remaining: REJECTED_DISPLAY };
                    ClientReaction::Unexpected
                },
            },
            _ => ClientReaction::Unexpected,
        }
    }

    /// Whether the connection is open, so that tearing it down must first
    /// send `Leave`.
    pub fn must_leave(&self) -> (r: bool)
        ensures
            r == (*self matches ConnectionState::AwaitingConfirm { .. } || *self
                == ConnectionState::AwaitingOpponent || *self == ConnectionState::InBattle),
    {
        match self {
            ConnectionState::AwaitingConfirm { .. } => true,
            ConnectionState::AwaitingOpponent => true,
            ConnectionState::InBattle => true,
            _ => false,
        }
    }

    /// The state after the user tears the connection down.
    pub fn teardown(self) -> (r: ConnectionState)
        ensures
            r == ConnectionState::Connecting,
    {
        ConnectionState::Connecting
    }
}

/// The state and the number of join requests after a run of ticks without
/// any message.
pub open spec fn ticks_spec(s: ConnectionState, elapsed: Seq<u64>) -> (ConnectionState, nat)
    decreases elapsed.len(),
{
    if elapsed.len() == 0 {
        (s, 0)
    } else {
        let (s1, sent) = tick_spec(s, elapsed[0]);
        let (s2, n) = ticks_spec(s1, elapsed.skip(1));
        (s2, n + if sent { 1nat } else { 0nat })
    }
}

pub open spec fn total(elapsed: Seq<u64>) -> nat
    decreases elapsed.len(),
{
    if elapsed.len() == 0 {
        0
    } else {
        (elapsed[0] + total(elapsed.skip(1))) as nat
    }
}

/// While the client awaits confirmation, a tick never leaves that state; it
/// adds the elapsed time to the accumulator, and when the sum reaches the
/// resend interval it asks for exactly one join request and takes one
/// interval off.
pub proof fn lemma_tick_awaiting(accumulator: u64, elapsed: u64)
    requires
        accumulator + elapsed <= u64::MAX,
    ensures
        ({
            let (s, resend) = tick_spec(ConnectionState::AwaitingConfirm { accumulator }, elapsed);
            &&& s matches ConnectionState::AwaitingConfirm { accumulator: a }
            &&& resend == (accumulator + elapsed >= RESEND_INTERVAL)
            &&& !resend ==> s == ConnectionState::AwaitingConfirm {
                accumulator: (accumulator + elapsed) as u64,
            }
            &&& resend ==> s == ConnectionState::AwaitingConfirm {
                accumulator: (accumulator + elapsed - RESEND_INTERVAL) as u64,
            }
        }),
{
}

/// Over any run of ticks while awaiting confirmation, the client stays in
/// that state, and every interval of time that passes is paid for by one
/// join request: the final accumulator plus one interval per request sent
/// equals the starting accumulator plus the time elapsed.
pub proof fn lemma_ticks_awaiting(accumulator: u64, elapsed: Seq<u64>)
    requires
        accumulator + total(elapsed) <= u64::MAX,
    ensures
        ({
            let (s, sent) = ticks_spec(ConnectionState::AwaitingConfirm { accumulator }, elapsed);
            &&& s matches ConnectionState::AwaitingConfirm { accumulator: a }
            &&& a + sent * RESEND_INTERVAL == accumulator + total(elapsed)
        }),
    decreases elapsed.len(),
{
    if elapsed.len() > 0 {
        let (s1, sent1) = tick_spec(ConnectionState::AwaitingConfirm { accumulator }, elapsed[0]);
        lemma_tick_awaiting(accumulator, elapsed[0]);
        let a1 = if sent1 {
            (accumulator + elapsed[0] - RESEND_INTERVAL) as u64
        } else {
            (accumulator + elapsed[0]) as u64
        };
        assert(s1 == ConnectionState::AwaitingConfirm { accumulator: a1 });
        lemma_ticks_awaiting(a1, elapsed.skip(1));
        let (s2, n) = ticks_spec(s1, elapsed.skip(1));
        if let ConnectionState::AwaitingConfirm { accumulator: a2 } = s2 {
            assert(a2 + n * RESEND_INTERVAL == a1 + total(elapsed.skip(1)));
            assert((n + if sent1 { 1nat } else { 0nat }) * RESEND_INTERVAL == n * RESEND_INTERVAL + if sent1 { RESEND_INTERVAL as nat } else { 0nat }) by (nonlinear_arith);
        }
    }
}

} // verus!
