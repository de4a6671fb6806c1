//! The connection that is held open while the desktop runs, to know whether
//! the phone is there.
//!
//! A PING is sent every five seconds. The phone counts as there while a PONG
//! came within the last fifteen seconds, as doubtful up to thirty, and then as
//! gone. A connection that is lost or refused is tried again, at first after
//! one second and then after ever longer, up to fifteen seconds; one over which
//! the greeting could not be sent is tried again at once.
use vstd::prelude::*;

use crate::protocol::ServerMessage;
use crate::settings::Settings;
use crate::text::{contains_text, holds_text, opt_text};

verus! {

/// How often a PING is sent, in seconds.
pub const PING_SECS: u64 = 5;

/// The nanoseconds without a PONG after which the phone is doubtful.
pub const YELLOW_NANOS: u128 = 15000000000;

/// The nanoseconds without a PONG after which the phone is gone.
pub const DEAD_NANOS: u128 = 30000000000;

/// The longest wait before another try, in seconds.
pub const MAX_BACKOFF_SECS: u64 = 15;

/// What the user interface is told.
#[derive(Debug, Clone, Copy, PartialEq, Eq, Structural)]
pub enum Signal {
    Alive,
    Doubtful,
    Dead,
    /// The phone does not know the token: the user has to pair again.
    TokenRejected,
}

/// What is done next.
#[derive(Debug, Clone, Copy, PartialEq, Eq, Structural)]
pub enum Order {
    /// Connect, after a wait.
    Connect { after_secs: u64 },
    /// Send HELLO.
    SendHello,
    /// Wait for the next frame.
    Listen,
    /// Send PINGs and listen.
    Watch,
    /// Give up.
    Stop,
}

/// What is told and done next.
#[derive(Debug, Clone, Copy, PartialEq, Eq, Structural)]
pub struct Reaction {
    pub signal: Option<Signal>,
    pub order: Order,
}

/// How far a connection is.
#[derive(Debug, Clone, Copy, PartialEq, Eq, Structural)]
pub enum Phase {
    Connecting,
    /// HELLO is to be sent or was sent.
    Greeting,
    /// The session is open. The last PONG came at `last_pong`, in nanoseconds
    /// of a clock that only goes forward; `doubtful` tells whether the user
    /// interface was told that none has come for long.
    Open { last_pong: u128, doubtful: bool },
    Stopped,
}

/// What happens to a connection.
#[derive(Debug, PartialEq, Eq)]
pub enum BeatEvent {
    ConnectFailed,
    Connected,
    /// HELLO could not be sent.
    HelloFailed,
    /// A message of the phone before the session is open, at a time.
    Greeted { message: ServerMessage, now: u128 },
    /// Another frame came before the session is open.
    OtherFrame,
    /// The phone closed the connection, or it broke.
    Closed,
    /// A PING was sent, at a time.
    PingSent { now: u128 },
    /// A PING could not be sent.
    PingFailed,
    /// A PONG came, at a time.
    Pong { now: u128 },
}

/// The text in small letters.
pub uninterp spec fn lowercased(s: Seq<char>) -> Seq<char>;

/// `str::to_lowercase`. The result depends on the text alone.
#[verifier::external_body]
fn lowercase(s: &str) -> (r: String)
    ensures
        r@ == lowercased(s@),
{
    s.to_lowercase()
}

/// Whether a refusal, in small letters, is about the token.
pub open spec fn is_about_token(lower: Seq<char>) -> bool {
    contains_text(lower, "token"@) || contains_text(lower, "auth"@)
}

/// Whether a refusal, in small letters, is about the token.
pub fn mentions_token(lower: &str) -> (r: bool)
    ensures
        r == is_about_token(lower@),
{
    holds_text(lower, "token") || holds_text(lower, "auth")
}

/// What a message before the session is open means.
#[derive(Debug, Clone, Copy, PartialEq, Eq, Structural)]
pub enum Greeting {
    Accepted,
    /// The token is not known.
    Rejected,
    /// The phone refuses for another reason.
    Refused,
    /// The message has no meaning here.
    Other,
}

/// What a message before the session is open means.
pub open spec fn greeting_of(m: ServerMessage) -> Greeting {
    match m {
        ServerMessage::HelloOk { .. } => Greeting::Accepted,
        ServerMessage::Error { message } => if is_about_token(lowercased(message@)) {
            Greeting::Rejected
        } else {
            Greeting::Refused
        },
        _ => Greeting::Other,
    }
}

/// Reads a message before the session is open.
pub fn read_greeting(m: &ServerMessage) -> (g: Greeting)
    ensures
        g == greeting_of(*m),
{
    match m {
        ServerMessage::HelloOk { .. } => Greeting::Accepted,
        ServerMessage::Error { message } => {
            let lower: String = lowercase(message.as_str());
            if mentions_token(lower.as_str()) {
                Greeting::Rejected
            } else {
                Greeting::Refused
            }
        },
        _ => Greeting::Other,
    }
}

/// The state of the connection: what the user interface was last told, the
/// wait before the next try, in seconds, and how far the connection is.
#[derive(Debug, Clone, Copy, PartialEq, Eq, Structural)]
pub struct Heartbeat {
    pub told_alive: Option<bool>,
    pub backoff_secs: u64,
    pub phase: Phase,
}

impl Heartbeat {
    /// Whether the wait is one that can come about.
    pub open spec fn is_valid(self) -> bool {
        1 <= self.backoff_secs <= MAX_BACKOFF_SECS
    }

    /// `Dead`, unless that was the last thing told.
    pub open spec fn dead_signal(self) -> Option<Signal> {
        if self.told_alive == Some(false) {
            None
        } else {
            Some(Signal::Dead)
        }
    }

    /// The try failed: wait, and the next time longer.
    pub open spec fn retried(self) -> (Heartbeat, Reaction) {
        (
            Heartbeat {
                told_alive: Some(false),
                backoff_secs: if self.backoff_secs * 2 <= MAX_BACKOFF_SECS {
                    (self.backoff_secs * 2) as u64
                } else {
                    MAX_BACKOFF_SECS
                },
                phase: Phase::Connecting,
            },
            Reaction {
                signal: self.dead_signal(),
                order: Order::Connect { after_secs: self.backoff_secs },
            },
        )
    }

    /// The open session is lost: try again after a second.
    pub open spec fn lost(self) -> (Heartbeat, Reaction) {
        (
            Heartbeat { told_alive: Some(false), phase: Phase::Connecting, ..self },
            Reaction { signal: self.dead_signal(), order: Order::Connect { after_secs: 1 } },
        )
    }

    /// What an event before the session is open means.
    pub open spec fn greeted(self, g: Greeting, now: u128) -> (Heartbeat, Reaction) {
        match g {
            Greeting::Accepted => (
                Heartbeat {
                    told_alive: Some(true),
                    phase: Phase::Open { last_pong: now, doubtful: false },
                    ..self
                },
                Reaction {
                    signal: if self.told_alive == Some(true) {
                        None
                    } else {
                        Some(Signal::Alive)
                    },
                    order: Order::Watch,
                },
            ),
            Greeting::Rejected => (
                Heartbeat { phase: Phase::Stopped, ..self },
                Reaction { signal: Some(Signal::TokenRejected), order: Order::Stop },
            ),
            Greeting::Refused => self.retried(),
            Greeting::Other => (self, Reaction { signal: None, order: Order::Listen }),
        }
    }

    /// What it means that a PING was sent a time after the last PONG.
    pub open spec fn pinged(self, last_pong: u128, doubtful: bool, now: u128) -> (
        Heartbeat,
        Reaction,
    ) {
        if now - last_pong > DEAD_NANOS {
            self.lost()
        } else if now - last_pong > YELLOW_NANOS && !doubtful {
            (
                Heartbeat { phase: Phase::Open { last_pong, doubtful: true }, ..self },
                Reaction { signal: Some(Signal::Doubtful), order: Order::Watch },
            )
        } else {
            (self, Reaction { signal: None, order: Order::Watch })
        }
    }

    /// What an event means. One that has no meaning in this phase changes
    /// nothing.
    pub open spec fn stepped(self, e: BeatEvent) -> (Heartbeat, Reaction) {
        match (self.phase, e) {
            (Phase::Connecting, BeatEvent::ConnectFailed) => self.retried(),
            (Phase::Connecting, BeatEvent::Connected) => (
                Heartbeat { backoff_secs: 1, phase: Phase::Greeting, ..self },
                Reaction { signal: None, order: Order::SendHello },
            ),
            (Phase::Greeting, BeatEvent::HelloFailed) => (
                Heartbeat { told_alive: Some(false), phase: Phase::Connecting, ..self },
                Reaction {
                    signal: self.dead_signal(),
                    order: Order::Connect { after_secs: 0 },
                },
            ),
            (Phase::Greeting, BeatEvent::Greeted { message, now }) => self.greeted(
                greeting_of(message),
                now,
            ),
            (Phase::Greeting, BeatEvent::Closed) => self.retried(),
            (Phase::Open { last_pong, doubtful }, BeatEvent::PingSent { now }) => self.pinged(
                last_pong,
                doubtful,
                now,
            ),
            (Phase::Open { .. }, BeatEvent::PingFailed) => self.lost(),
            (Phase::Open { .. }, BeatEvent::Closed) => self.lost(),
            (Phase::Open { doubtful, .. }, BeatEvent::Pong { now }) => (
                Heartbeat { phase: Phase::Open { last_pong: now, doubtful: false }, ..self },
                Reaction {
                    signal: if doubtful {
                        Some(Signal::Alive)
                    } else {
                        None
                    },
                    order: Order::Watch,
                },
            ),
            _ => (
                self,
                Reaction {
                    signal: None,
                    order: match self.phase {
                        Phase::Connecting => Order::Connect { after_secs: 0 },
                        Phase::Greeting => Order::Listen,
                        Phase::Open { .. } => Order::Watch,
                        Phase::Stopped => Order::Stop,
                    },
                },
            ),
        }
    }

    /// Not connected yet, and nothing told.
    pub fn new() -> (h: Self)
        ensures
            h == (Heartbeat { told_alive: None, backoff_secs: 1, phase: Phase::Connecting }),
            h.is_valid(),
    {
        Heartbeat { told_alive: None, backoff_secs: 1, phase: Phase::Connecting }
    }

    /// `Dead`, unless that was the last thing told.
    fn tell_dead(&self) -> (s: Option<Signal>)
        ensures
            s == self.dead_signal(),
    {
        match self.told_alive {
            Some(alive) => if alive {
                Some(Signal::Dead)
            } else {
                None
            },
            None => Some(Signal::Dead),
        }
    }

    /// The try failed.
    fn retry(&mut self) -> (r: Reaction)
        requires
            old(self).is_valid(),
        ensures
            (*final(self), r) == old(self).retried(),
    {
        let signal: Option<Signal> = self.tell_dead();
        let after_secs: u64 = self.backoff_secs;
        self.told_alive = Some(false);
        self.backoff_secs = if after_secs * 2 <= MAX_BACKOFF_SECS {
            after_secs * 2
        } else {
            MAX_BACKOFF_SECS
        };
        self.phase = Phase::Connecting;
        Reaction { signal, order: Order::Connect { after_secs } }
    }

    /// The open session is lost.
    fn lose(&mut self) -> (r: Reaction)
        ensures
            (*final(self), r) == old(self).lost(),
    {
        let signal: Option<Signal> = self.tell_dead();
        self.told_alive = Some(false);
        self.phase = Phase::Connecting;
        Reaction { signal, order: Order::Connect { after_secs: 1 } }
    }

    /// What a message before the session is open means, given what it says.
    pub fn greet(&mut self, g: Greeting, now: u128) -> (r: Reaction)
        requires
            old(self).is_valid(),
        ensures
            (*final(self), r) == old(self).greeted(g, now),
            final(self).is_valid(),
    {
        match g {
            Greeting::Accepted => {
                let signal: Option<Signal> = match self.told_alive {
                    Some(alive) => if alive {
                        None
                    } else {
                        Some(Signal::Alive)
                    },
                    None => Some(Signal::Alive),
                };
                self.told_alive = Some(true);
                self.phase = Phase::Open { last_pong: now, doubtful: false };
                Reaction { signal, order: Order::Watch }
            },
            Greeting::Rejected => {
                self.phase = Phase::Stopped;
                Reaction { signal: Some(Signal::TokenRejected), order: Order::Stop }
            },
            Greeting::Refused => self.retry(),
            Greeting::Other => Reaction { signal: None, order: Order::Listen },
        }
    }

    /// Decides what an event means.
    pub fn step(&mut self, e: &BeatEvent) -> (r: Reaction)
        requires
            old(self).is_valid(),
        ensures
            (*final(self), r) == old(self).stepped(*e),
            final(self).is_valid(),
    {
        match (self.phase, e) {
            (Phase::Connecting, BeatEvent::ConnectFailed) => self.retry(),
            (Phase::Connecting, BeatEvent::Connected) => {
                self.backoff_secs = 1;
                self.phase = Phase::Greeting;
                Reaction { signal: None, order: Order::SendHello }
            },
            (Phase::Greeting, BeatEvent::HelloFailed) => {
                let signal: Option<Signal> = self.tell_dead();
                self.told_alive = Some(false);
                self.phase = Phase::Connecting;
                Reaction { signal, order: Order::Connect { after_secs: 0 } }
            },
            (Phase::Greeting, BeatEvent::Greeted { message, now }) => {
                let g: Greeting = read_greeting(message);
                self.greet(g, *now)
            },
            (Phase::Greeting, BeatEvent::Closed) => self.retry(),
            (Phase::Open { last_pong, doubtful }, BeatEvent::PingSent { now }) => {
                let since: u128 = if *now >= last_pong {
                    *now - last_pong
                } else {
                    0
                };
                if since > DEAD_NANOS {
                    self.lose()
                } else if since > YELLOW_NANOS && !doubtful {
                    self.phase = Phase::Open { last_pong, doubtful: true };
                    Reaction { signal: Some(Signal::Doubtful), order: Order::Watch }
                } else {
                    Reaction { signal: None, order: Order::Watch }
                }
            },
            (Phase::Open { .. }, BeatEvent::PingFailed) => self.lose(),
            (Phase::Open { .. }, BeatEvent::Closed) => self.lose(),
            (Phase::Open { doubtful, .. }, BeatEvent::Pong { now }) => {
                self.phase = Phase::Open { last_pong: *now, doubtful: false };
                let signal: Option<Signal> = if doubtful {
                    Some(Signal::Alive)
                } else {
                    None
                };
                Reaction { signal, order: Order::Watch }
            },
            _ => {
                let order: Order = match self.phase {
                    Phase::Connecting => Order::Connect { after_secs: 0 },
                    Phase::Greeting => Order::Listen,
                    Phase::Open { .. } => Order::Watch,
                    Phase::Stopped => Order::Stop,
                };
                Reaction { signal: None, order }
            },
        }
    }
}

/// That the phone is gone is told once: after it was told, it is not told
/// again before the phone was there again.
pub proof fn gone_is_told_once(h: Heartbeat, e: BeatEvent)
    ensures
        h.stepped(e).1.signal == Some(Signal::Dead) ==> h.told_alive != Some(false)
            && h.stepped(e).0.told_alive == Some(false),
        h.told_alive == Some(false) && h.stepped(e).0.told_alive != Some(false)
            ==> h.stepped(e).1.signal == Some(Signal::Alive),
{
}

/// The wait before another try lies between one and fifteen seconds, doubles
/// with each try that fails, and begins anew when a connection comes about.
pub proof fn waits_grow_up_to_the_limit(h: Heartbeat)
    requires
        h.is_valid(),
        h.phase == Phase::Connecting,
    ensures
        h.stepped(BeatEvent::ConnectFailed).1.order == (Order::Connect {
            after_secs: h.backoff_secs,
        }),
        h.stepped(BeatEvent::ConnectFailed).0.backoff_secs == if h.backoff_secs * 2
            <= MAX_BACKOFF_SECS {
            h.backoff_secs * 2
        } else {
            MAX_BACKOFF_SECS as int
        },
        h.stepped(BeatEvent::ConnectFailed).0.is_valid(),
        h.stepped(BeatEvent::Connected).0.backoff_secs == 1,
{
}

/// A token that the phone does not know ends the heartbeat for good.
pub proof fn rejected_token_stops(h: Heartbeat, e: BeatEvent)
    ensures
        h.stepped(e).1.signal == Some(Signal::TokenRejected) ==> h.stepped(e).0.phase
            == Phase::Stopped && h.stepped(e).1.order == Order::Stop,
        h.phase == Phase::Stopped ==> h.stepped(e).0 == h && h.stepped(e).1.order == Order::Stop,
{
}

// ---------------------------------------------------------------------------
// Laws over a run of events
// ---------------------------------------------------------------------------

/// The state after a run of events.
pub open spec fn after_events(h: Heartbeat, events: Seq<BeatEvent>) -> Heartbeat
    decreases events.len(),
{
    if events.len() == 0 {
        h
    } else {
        after_events(h, events.drop_last()).stepped(events.last()).0
    }
}

/// The reaction to an event of a run, given those before it.
pub open spec fn reaction_at(h: Heartbeat, events: Seq<BeatEvent>, i: int) -> Reaction {
    after_events(h, events.take(i)).stepped(events[i]).1
}

/// The state after one event more.
proof fn after_one_more(h: Heartbeat, events: Seq<BeatEvent>, i: int)
    requires
        0 <= i < events.len(),
    ensures
        after_events(h, events.take(i + 1)) == after_events(h, events.take(i)).stepped(
            events[i],
        ).0,
{
    assert(events.take(i + 1).drop_last() =~= events.take(i));
    assert(events.take(i + 1).last() == events[i]);
}

/// While no `Alive` is told, a phone that was told to be gone stays told so.
proof fn gone_until_alive(h: Heartbeat, events: Seq<BeatEvent>, i: int, j: int)
    requires
        0 <= i < j <= events.len(),
        reaction_at(h, events, i).signal == Some(Signal::Dead),
        forall|k: int|
            i < k < j ==> (#[trigger] reaction_at(h, events, k)).signal != Some(Signal::Alive),
    ensures
        after_events(h, events.take(j)).told_alive == Some(false),
    decreases j - i,
{
    after_one_more(h, events, j - 1);
    let before = after_events(h, events.take(j - 1));
    gone_is_told_once(before, events[j - 1]);
    if i < j - 1 {
        gone_until_alive(h, events, i, j - 1);
        assert(reaction_at(h, events, j - 1).signal != Some(Signal::Alive));
    }
}

/// In a run of events, that the phone is gone is never told twice without that
/// it was told to be there in between.
pub proof fn alive_is_told_between_two_deaths(
    h: Heartbeat,
    events: Seq<BeatEvent>,
    i: int,
    j: int,
)
    requires
        0 <= i < j < events.len(),
        reaction_at(h, events, i).signal == Some(Signal::Dead),
        reaction_at(h, events, j).signal == Some(Signal::Dead),
    ensures
        exists|k: int|
            i < k < j && (#[trigger] reaction_at(h, events, k)).signal == Some(Signal::Alive),
{
    if forall|k: int|
        i < k < j ==> (#[trigger] reaction_at(h, events, k)).signal != Some(Signal::Alive) {
        gone_until_alive(h, events, i, j);
        gone_is_told_once(after_events(h, events.take(j)), events[j]);
    }
}

/// A heartbeat that has stopped stays as it is.
proof fn stopped_stays(h: Heartbeat, events: Seq<BeatEvent>, i: int, j: int)
    requires
        0 <= i <= j <= events.len(),
        after_events(h, events.take(i)).phase == Phase::Stopped,
    ensures
        after_events(h, events.take(j)) == after_events(h, events.take(i)),
    decreases j - i,
{
    if i < j {
        stopped_stays(h, events, i, j - 1);
        after_one_more(h, events, j - 1);
    }
}

/// In a run of events, after it was told that the token is rejected nothing
/// more is told, and the order is to stop: no connection is made.
pub proof fn nothing_is_told_after_rejection(
    h: Heartbeat,
    events: Seq<BeatEvent>,
    i: int,
    j: int,
)
    requires
        0 <= i < j < events.len(),
        reaction_at(h, events, i).signal == Some(Signal::TokenRejected),
    ensures
        reaction_at(h, events, j) == (Reaction { signal: None, order: Order::Stop }),
{
    rejected_token_stops(after_events(h, events.take(i)), events[i]);
    after_one_more(h, events, i);
    stopped_stays(h, events, i + 1, j);
}

// ---------------------------------------------------------------------------
// Whether there is a heartbeat
// ---------------------------------------------------------------------------

/// The token that the heartbeat greets with. Without one that is not empty
/// there is no heartbeat: the phone would refuse it.
pub fn heartbeat_token(s: &Settings) -> (r: Option<String>)
    ensures
        opt_text(r) == match s@.device_token {
            Some(t) => if t.len() > 0 {
                Some(t)
            } else {
                None
            },
            None => None,
        },
{
    match &s.device_token {
        Some(t) => {
            if t.as_str().is_empty() {
                None
            } else {
                Some(t.clone())
            }
        },
        None => None,
    }
}

} // verus!
