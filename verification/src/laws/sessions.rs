//! Laws on keeping a session alive and on pairing.
use vstd::prelude::*;

use crate::heartbeat::{
    greeting_of, is_about_token, lowercased, BeatEvent, Greeting, Heartbeat, Order, Phase, Signal,
};
use crate::laws::texts::containing_is_exact;
use crate::pair::{cancelled_text, is_pair_step, PairAction, PairEvent, PairState};
use crate::protocol::ServerMessage;
use crate::text::contains_text;

verus! {

/// An open session is lost where more than thirty seconds have passed since
/// the last PONG, and doubtful, which is told once, where more than fifteen
/// have; up to then a PING changes nothing.
pub proof fn silence_is_noticed(h: Heartbeat, last_pong: u128, doubtful: bool, now: u128)
    requires
        h.phase == (Phase::Open { last_pong, doubtful }),
    ensures
        ({
            let (after, r) = h.stepped(BeatEvent::PingSent { now });
            let silence = now - last_pong;
            &&& silence > 30_000_000_000 ==> after.phase == Phase::Connecting && r.order
                == (Order::Connect { after_secs: 1 }) && after.told_alive == Some(false)
                && after.backoff_secs == h.backoff_secs && r.signal == (if h.told_alive == Some(
                false,
            ) {
                None::<Signal>
            } else {
                Some(Signal::Dead)
            })
            &&& 15_000_000_000 < silence <= 30_000_000_000 && !doubtful ==> after == (Heartbeat {
                phase: Phase::Open { last_pong, doubtful: true },
                ..h
            }) && r.order == Order::Watch && r.signal == Some(Signal::Doubtful)
            &&& silence <= 15_000_000_000 || (silence <= 30_000_000_000 && doubtful) ==> after == h
                && r.order == Order::Watch && r.signal is None
        }),
{
}

/// A PONG starts the time anew, and ends a doubt that was told.
pub proof fn answer_ends_the_silence(h: Heartbeat, last_pong: u128, doubtful: bool, now: u128)
    requires
        h.phase == (Phase::Open { last_pong, doubtful }),
    ensures
        ({
            let (after, r) = h.stepped(BeatEvent::Pong { now });
            &&& after == (Heartbeat {
                phase: Phase::Open { last_pong: now, doubtful: false },
                ..h
            })
            &&& r.order == Order::Watch
            &&& r.signal == (if doubtful {
                Some(Signal::Alive)
            } else {
                None::<Signal>
            })
        }),
{
}

/// A session that breaks is tried again after a second, and is told as dead
/// unless that was told last.
pub proof fn broken_session_is_tried_again(h: Heartbeat, e: BeatEvent)
    requires
        h.phase is Open,
        e is Closed || e is PingFailed,
    ensures
        ({
            let (after, r) = h.stepped(e);
            &&& after == (Heartbeat {
                told_alive: Some(false),
                phase: Phase::Connecting,
                ..h
            })
            &&& r.order == (Order::Connect { after_secs: 1 })
            &&& r.signal == (if h.told_alive == Some(false) {
                None::<Signal>
            } else {
                Some(Signal::Dead)
            })
        }),
{
}

/// A try that fails is repeated after the wait, and the wait is doubled up to
/// fifteen seconds: whether the connection fails, the phone closes it or the
/// phone refuses for another reason than the token.
pub proof fn failed_try_waits_longer(h: Heartbeat, e: BeatEvent)
    requires
        h.is_valid(),
        (h.phase == Phase::Connecting && e is ConnectFailed) || (h.phase == Phase::Greeting
            && e is Closed) || (h.phase == Phase::Greeting && e is Greeted && greeting_of(
            e->message,
        ) == Greeting::Refused),
    ensures
        ({
            let (after, r) = h.stepped(e);
            &&& r.order == (Order::Connect { after_secs: h.backoff_secs })
            &&& after.phase == Phase::Connecting
            &&& after.told_alive == Some(false)
            &&& after.backoff_secs == (if 2 * h.backoff_secs <= 15 {
                2 * h.backoff_secs
            } else {
                15
            })
            &&& r.signal == (if h.told_alive == Some(false) {
                None::<Signal>
            } else {
                Some(Signal::Dead)
            })
        }),
{
}

/// A connection that is made is greeted, and the wait begins anew; where the
/// greeting cannot be sent, the connection is tried again at once.
pub proof fn connection_is_greeted(h: Heartbeat)
    ensures
        h.phase == Phase::Connecting ==> ({
            let (after, r) = h.stepped(BeatEvent::Connected);
            &&& after == (Heartbeat { backoff_secs: 1, phase: Phase::Greeting, ..h })
            &&& r.order == Order::SendHello
            &&& r.signal is None
        }),
        h.phase == Phase::Greeting ==> ({
            let (after, r) = h.stepped(BeatEvent::HelloFailed);
            &&& after == (Heartbeat {
                told_alive: Some(false),
                phase: Phase::Connecting,
                ..h
            })
            &&& r.order == (Order::Connect { after_secs: 0 })
            &&& r.signal == (if h.told_alive == Some(false) {
                None::<Signal>
            } else {
                Some(Signal::Dead)
            })
        }),
{
}

/// A greeting that is accepted opens the session and is told as alive unless
/// that was told last; one that is turned down for the token ends everything;
/// any other message is passed over.
pub proof fn greeting_is_answered(h: Heartbeat, message: ServerMessage, now: u128)
    requires
        h.phase == Phase::Greeting,
    ensures
        ({
            let (after, r) = h.stepped(BeatEvent::Greeted { message, now });
            &&& message is HelloOk ==> after == (Heartbeat {
                told_alive: Some(true),
                phase: Phase::Open { last_pong: now, doubtful: false },
                ..h
            }) && r.order == Order::Watch && r.signal == (if h.told_alive == Some(true) {
                None::<Signal>
            } else {
                Some(Signal::Alive)
            })
            &&& message matches ServerMessage::Error { message: m } ==> (contains_text(
                lowercased(m@),
                "token"@,
            ) || contains_text(lowercased(m@), "auth"@) ==> after == (Heartbeat {
                phase: Phase::Stopped,
                ..h
            }) && r.order == Order::Stop && r.signal == Some(Signal::TokenRejected))
            &&& !(message is HelloOk) && !(message is Error) ==> after == h && r.order
                == Order::Listen && r.signal is None
        }),
{
}

/// What a message means before the session is open: HELLO_OK opens it, an
/// error that speaks of the token or of authorisation in any letters rejects
/// it, another error refuses it, and no other message has a meaning.
pub proof fn greeting_is_understood(m: ServerMessage)
    ensures
        greeting_of(m) == Greeting::Accepted <==> m is HelloOk,
        m matches ServerMessage::Error { message } ==> (greeting_of(m) == Greeting::Rejected <==> (
        contains_text(lowercased(message@), "token"@) || contains_text(
            lowercased(message@),
            "auth"@,
        ))) && (greeting_of(m) == Greeting::Refused <==> !(contains_text(
            lowercased(message@),
            "token"@,
        ) || contains_text(lowercased(message@), "auth"@))),
        !(m is HelloOk) && !(m is Error) ==> greeting_of(m) == Greeting::Other,
{
}

/// A refusal is about the token where it speaks of it or of authorisation.
pub proof fn refusal_is_about_the_token(a: Seq<char>, b: Seq<char>)
    ensures
        is_about_token(a + "token"@ + b),
        is_about_token(a + "auth"@ + b),
        is_about_token(a) ==> contains_text(a, "token"@) || contains_text(a, "auth"@),
{
    containing_is_exact(a, "token"@, b);
    containing_is_exact(a, "auth"@, b);
}

/// An event out of place changes nothing and is not told.
pub proof fn event_out_of_place_is_ignored(h: Heartbeat, e: BeatEvent)
    requires
        h.phase == Phase::Stopped || (h.phase == Phase::Connecting && !(e is ConnectFailed) && !(
        e is Connected)) || (h.phase == Phase::Greeting && (e is ConnectFailed || e is Connected
            || e is OtherFrame || e is PingSent || e is PingFailed || e is Pong)) || (h.phase is Open
            && (e is ConnectFailed || e is Connected || e is HelloFailed || e is Greeted
            || e is OtherFrame)),
    ensures
        h.stepped(e).0 == h,
        h.stepped(e).1.signal is None,
        h.phase == Phase::Stopped ==> h.stepped(e).1.order == Order::Stop,
        h.phase == Phase::Greeting ==> h.stepped(e).1.order == Order::Listen,
        h.phase is Open ==> h.stepped(e).1.order == Order::Watch,
        h.phase == Phase::Connecting ==> h.stepped(e).1.order == (Order::Connect { after_secs: 0 }),
{
}

/// A pairing shows the code that the phone sent, waits for the user, tells the
/// phone what the user decided, and is done with what the phone then hands
/// over.
pub proof fn pairing_goes_its_way(
    code: String,
    token: String,
    device_id: String,
    device_name: String,
    music_root: String,
    confirmed: bool,
    next: PairState,
    action: PairAction,
)
    ensures
        is_pair_step(
            PairState::AwaitingChallenge,
            PairEvent::Reply(ServerMessage::PairChallenge { code, device_name }),
            next,
            action,
        ) <==> next == PairState::AwaitingUser && action == (PairAction::ShowChallenge {
            code,
            device_name,
        }),
        is_pair_step(PairState::AwaitingUser, PairEvent::User(confirmed), next, action) <==> (
        confirmed && next == PairState::AwaitingVerdict && action == PairAction::Confirm) || (
        !confirmed && next == PairState::Over && action == PairAction::Cancel),
        is_pair_step(
            PairState::AwaitingVerdict,
            PairEvent::Reply(
                ServerMessage::PairOk { token, device_id, device_name, music_root },
            ),
            next,
            action,
        ) ==> next == PairState::Over && (action matches PairAction::Succeed(o) && o.token == token
            && o.device_id == device_id && o.device_name == device_name && o.music_root
            == music_root),
{
}

/// An error of the phone, or a pairing that its user gives up, ends the pairing
/// with the phone's reason; any other message that is not expected ends it
/// without one.
pub proof fn pairing_fails_with_a_reason(
    state: PairState,
    m: ServerMessage,
    next: PairState,
    action: PairAction,
)
    requires
        state == PairState::AwaitingChallenge || state == PairState::AwaitingVerdict,
        is_pair_step(state, PairEvent::Reply(m), next, action),
    ensures
        m matches ServerMessage::Error { message } ==> next == PairState::Over && (
        action matches PairAction::Fail(why) && why@ == "phone error: "@ + message@),
        state == PairState::AwaitingVerdict ==> (m matches ServerMessage::PairCancelled { reason }
            ==> next == PairState::Over && (action matches PairAction::Fail(why) && why@
            == "phone cancelled: "@ + reason@)),
        !(m is Error) && !(m is PairChallenge) && state == PairState::AwaitingChallenge ==> next
            == PairState::Over && action == PairAction::Unexpected,
        !(m is Error) && !(m is PairOk) && !(m is PairCancelled) && state
            == PairState::AwaitingVerdict ==> next == PairState::Over && action
            == PairAction::Unexpected,
{
}

/// What comes out of turn in a pairing is ignored.
pub proof fn pairing_ignores_what_is_out_of_turn(
    state: PairState,
    e: PairEvent,
    next: PairState,
    action: PairAction,
)
    requires
        (state == PairState::AwaitingUser && e is Reply) || (state != PairState::AwaitingUser
            && e is User) || state == PairState::Over,
        is_pair_step(state, e, next, action),
    ensures
        next == state,
        action == PairAction::Ignore,
{
}

/// A pairing that the user gives up is told as such.
pub proof fn given_up_pairing_is_told()
    ensures
        cancelled_text() == "cancelled by user on desktop"@,
{
}

} // verus!
