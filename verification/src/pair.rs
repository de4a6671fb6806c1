//! The pairing of the desktop with a phone: both show a code, and both users
//! confirm that it is the same.
use vstd::prelude::*;

use crate::protocol::{ClientMessage, ServerMessage, PROTOCOL_VERSION};

verus! {

/// What a pairing yields.
#[derive(Debug, PartialEq, Eq)]
pub struct PairOutcome {
    pub token: String,
    /// Empty where the phone has none.
    pub device_id: String,
    pub device_name: String,
    pub music_root: String,
}

/// The message that asks for a pairing.
pub fn pair_request(desktop_user: String, desktop_host: String) -> (m: ClientMessage)
    ensures
        m == (ClientMessage::PairRequest {
            protocol_version: PROTOCOL_VERSION,
            desktop_user,
            desktop_host,
        }),
{
    ClientMessage::PairRequest { protocol_version: PROTOCOL_VERSION, desktop_user, desktop_host }
}

/// How far a pairing is.
#[derive(Debug, Clone, Copy, PartialEq, Eq, Structural)]
pub enum PairState {
    /// The phone was asked.
    AwaitingChallenge,
    /// The user of the desktop compares the codes.
    AwaitingUser,
    /// The user of the phone has still to confirm.
    AwaitingVerdict,
    /// It is done or off.
    Over,
}

/// What happens during a pairing.
#[derive(Debug, PartialEq, Eq)]
pub enum PairEvent {
    /// A message of the phone.
    Reply(ServerMessage),
    /// The user of the desktop confirms, or does not.
    User(bool),
}

/// What is done next in a pairing.
#[derive(Debug, PartialEq, Eq)]
pub enum PairAction {
    /// Show the code and wait for the user.
    ShowChallenge { code: String, device_name: String },
    /// Send PAIR_CONFIRM and wait for the phone.
    Confirm,
    /// Send PAIR_CANCEL and give up.
    Cancel,
    /// The pairing is done.
    Succeed(PairOutcome),
    /// The pairing is off, and why.
    Fail(String),
    /// The message was none to expect: give up.
    Unexpected,
    /// Nothing: the event has no meaning now.
    Ignore,
}

/// What the user is told when it was them who gave up.
pub open spec fn cancelled_text() -> Seq<char> {
    "cancelled by user on desktop"@
}

/// What the user is told when it was them who gave up.
pub fn cancelled_message() -> (s: String)
    ensures
        s@ == cancelled_text(),
{
    "cancelled by user on desktop".to_owned()
}

/// Whether an action gives up for a reason.
pub open spec fn is_failure(a: PairAction, reason: Seq<char>) -> bool {
    a matches PairAction::Fail(m) && m@ == reason
}

/// Whether a step of a pairing leads to a state and an action.
pub open spec fn is_pair_step(
    state: PairState,
    event: PairEvent,
    next: PairState,
    action: PairAction,
) -> bool {
    match (state, event) {
        (
            PairState::AwaitingChallenge,
            PairEvent::Reply(ServerMessage::PairChallenge { code, device_name }),
        ) => next == PairState::AwaitingUser && action == (PairAction::ShowChallenge {
            code,
            device_name,
        }),
        (PairState::AwaitingChallenge, PairEvent::Reply(ServerMessage::Error { message })) => next
            == PairState::Over && is_failure(action, "phone error: "@ + message@),
        (PairState::AwaitingChallenge, PairEvent::Reply(_)) => next == PairState::Over && action
            == PairAction::Unexpected,
        (PairState::AwaitingUser, PairEvent::User(confirmed)) => if confirmed {
            next == PairState::AwaitingVerdict && action == PairAction::Confirm
        } else {
            next == PairState::Over && action == PairAction::Cancel
        },
        (
            PairState::AwaitingVerdict,
            PairEvent::Reply(ServerMessage::PairOk { token, device_id, device_name, music_root }),
        ) => next == PairState::Over && action == PairAction::Succeed(
            PairOutcome { token, device_id, device_name, music_root },
        ),
        (
            PairState::AwaitingVerdict,
            PairEvent::Reply(ServerMessage::PairCancelled { reason }),
        ) => next == PairState::Over && is_failure(action, "phone cancelled: "@ + reason@),
        (PairState::AwaitingVerdict, PairEvent::Reply(ServerMessage::Error { message })) => next
            == PairState::Over && is_failure(action, "phone error: "@ + message@),
        (PairState::AwaitingVerdict, PairEvent::Reply(_)) => next == PairState::Over && action
            == PairAction::Unexpected,
        _ => next == state && action == PairAction::Ignore,
    }
}

/// A reason with what it is about in front.
fn reason(before: &str, text: &str) -> (s: String)
    ensures
        s@ == before@ + text@,
{
    let mut s: String = before.to_owned();
    s.append(text);
    s
}

/// Decides what an event means for a pairing.
pub fn pair_step(state: PairState, event: PairEvent) -> (r: (PairState, PairAction))
    ensures
        is_pair_step(state, event, r.0, r.1),
{
    match (state, event) {
        (PairState::AwaitingChallenge, PairEvent::Reply(m)) => match m {
            ServerMessage::PairChallenge { code, device_name } => {
                (PairState::AwaitingUser, PairAction::ShowChallenge { code, device_name })
            },
            ServerMessage::Error { message } => {
                (PairState::Over, PairAction::Fail(reason("phone error: ", message.as_str())))
            },
            _ => (PairState::Over, PairAction::Unexpected),
        },
        (PairState::AwaitingUser, PairEvent::User(confirmed)) => {
            if confirmed {
                (PairState::AwaitingVerdict, PairAction::Confirm)
            } else {
                (PairState::Over, PairAction::Cancel)
            }
        },
        (PairState::AwaitingVerdict, PairEvent::Reply(m)) => match m {
            ServerMessage::PairOk { token, device_id, device_name, music_root } => {
                (
                    PairState::Over,
                    PairAction::Succeed(PairOutcome { token, device_id, device_name, music_root }),
                )
            },
            ServerMessage::PairCancelled { reason: why } => {
                (PairState::Over, PairAction::Fail(reason("phone cancelled: ", why.as_str())))
            },
            ServerMessage::Error { message } => {
                (PairState::Over, PairAction::Fail(reason("phone error: ", message.as_str())))
            },
            _ => (PairState::Over, PairAction::Unexpected),
        },
        _ => (state, PairAction::Ignore),
    }
}

/// A pairing succeeds in no other state than the one that the confirmation by
/// the user of the desktop leads to, and that in no other than the one that
/// shows them the code.
pub proof fn success_needs_confirmation(
    state: PairState,
    event: PairEvent,
    next: PairState,
    action: PairAction,
)
    requires
        is_pair_step(state, event, next, action),
    ensures
        action is Succeed ==> state == PairState::AwaitingVerdict,
        next == PairState::AwaitingVerdict ==> state == PairState::AwaitingVerdict || (state
            == PairState::AwaitingUser && event == PairEvent::User(true)),
        next == PairState::AwaitingUser ==> state == PairState::AwaitingUser || action
            is ShowChallenge,
{
}

/// A pairing that is over stays over.
pub proof fn over_is_over(event: PairEvent, next: PairState, action: PairAction)
    requires
        is_pair_step(PairState::Over, event, next, action),
    ensures
        next == PairState::Over,
        action == PairAction::Ignore,
{
}

} // verus!
