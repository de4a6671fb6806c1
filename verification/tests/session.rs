use musicsync::heartbeat::{
    heartbeat_token, BeatEvent, Heartbeat, Order, Phase, Signal, DEAD_NANOS, YELLOW_NANOS,
};
use musicsync::pair::{
    cancelled_message, pair_request, pair_step, PairAction, PairEvent, PairOutcome, PairState,
};
use musicsync::protocol::{
    ClientMessage, ManifestFile, ServerMessage, DEFAULT_PORT, MDNS_SERVICE_TYPE, PROTOCOL_VERSION,
};
use musicsync::settings::Settings;
use musicsync::session::{
    device_files_of, hello_message, hello_reply, manifest_reply, scan_complete_message,
    version_mismatch_message, HelloReply, ManifestReply,
};

fn hello_ok(version: u32) -> ServerMessage {
    ServerMessage::HelloOk {
        device_id: "id".into(),
        device_name: "Phone".into(),
        music_root: "/sdcard/Music".into(),
        protocol_version: version,
    }
}

fn error(message: &str) -> ServerMessage {
    ServerMessage::Error { message: message.into() }
}

#[test]
fn protocol_constants() {
    assert_eq!(PROTOCOL_VERSION, 1);
    assert_eq!(DEFAULT_PORT, 7800);
    assert_eq!(MDNS_SERVICE_TYPE, "_musicsync._tcp.local.");
}

#[test]
fn hello_carries_token_and_version() {
    assert_eq!(
        hello_message("secret", "andrew".into(), "192.168.0.42".into()),
        ClientMessage::Hello {
            token: "secret".into(),
            protocol_version: 1,
            desktop_user: "andrew".into(),
            desktop_host: "192.168.0.42".into(),
        }
    );
}

#[test]
fn hello_is_answered() {
    let accepted = || HelloReply::Accepted {
        device_id: "id".into(),
        device_name: "Phone".into(),
        music_root: "/sdcard/Music".into(),
    };
    assert_eq!(hello_reply(hello_ok(1), true), accepted());
    assert_eq!(hello_reply(hello_ok(2), true), HelloReply::WrongVersion { server: 2 });
    assert_eq!(hello_reply(hello_ok(2), false), accepted());
    assert_eq!(hello_reply(error("x"), true), HelloReply::Unexpected);
    assert_eq!(version_mismatch_message(2), "protocol version mismatch: server=2 client=1");
}

#[test]
fn manifest_is_awaited() {
    let progress = ServerMessage::Progress { message: "m".into(), fraction_bits: Some(7) };
    assert_eq!(
        manifest_reply(progress),
        ManifestReply::Working { message: "m".into(), fraction_bits: Some(7) }
    );
    let manifest = ServerMessage::Manifest { files: vec![], playlists: vec![] };
    assert_eq!(
        manifest_reply(manifest),
        ManifestReply::Complete { files: vec![], playlists: vec![] }
    );
    assert_eq!(manifest_reply(ServerMessage::Bye), ManifestReply::Unexpected);
    assert_eq!(
        scan_complete_message(12, 3),
        "Scan complete, ready to copy. (12 tracks, 3 playlists)"
    );
    let files = vec![ManifestFile { path: "a/b.mp3".into(), size: 9, mtime: 1 }];
    let converted = device_files_of(&files);
    assert_eq!(converted.len(), 1);
    assert_eq!((converted[0].path.as_str(), converted[0].size), ("a/b.mp3", 9));
}

#[test]
fn pairing_goes_through_both_users() {
    assert_eq!(
        pair_request("u".into(), "h".into()),
        ClientMessage::PairRequest {
            protocol_version: 1,
            desktop_user: "u".into(),
            desktop_host: "h".into(),
        }
    );
    let challenge =
        ServerMessage::PairChallenge { code: "1234".into(), device_name: "Phone".into() };
    let (state, action) = pair_step(PairState::AwaitingChallenge, PairEvent::Reply(challenge));
    assert_eq!(state, PairState::AwaitingUser);
    assert_eq!(
        action,
        PairAction::ShowChallenge { code: "1234".into(), device_name: "Phone".into() }
    );
    let (state, action) = pair_step(state, PairEvent::User(true));
    assert_eq!((state, action), (PairState::AwaitingVerdict, PairAction::Confirm));
    let ok = ServerMessage::PairOk {
        token: "t".into(),
        device_id: "id".into(),
        device_name: "Phone".into(),
        music_root: "/r".into(),
    };
    let (state, action) = pair_step(state, PairEvent::Reply(ok));
    assert_eq!(state, PairState::Over);
    assert_eq!(
        action,
        PairAction::Succeed(PairOutcome {
            token: "t".into(),
            device_id: "id".into(),
            device_name: "Phone".into(),
            music_root: "/r".into(),
        })
    );
    let (state, action) = pair_step(state, PairEvent::User(true));
    assert_eq!((state, action), (PairState::Over, PairAction::Ignore));
}

#[test]
fn pairing_can_fail_at_each_step() {
    assert_eq!(
        pair_step(PairState::AwaitingChallenge, PairEvent::Reply(error("busy"))),
        (PairState::Over, PairAction::Fail("phone error: busy".into()))
    );
    assert_eq!(
        pair_step(PairState::AwaitingChallenge, PairEvent::Reply(ServerMessage::Bye)),
        (PairState::Over, PairAction::Unexpected)
    );
    assert_eq!(
        pair_step(PairState::AwaitingUser, PairEvent::User(false)),
        (PairState::Over, PairAction::Cancel)
    );
    assert_eq!(cancelled_message(), "cancelled by user on desktop");
    let cancelled = ServerMessage::PairCancelled { reason: "declined".into() };
    assert_eq!(
        pair_step(PairState::AwaitingVerdict, PairEvent::Reply(cancelled)),
        (PairState::Over, PairAction::Fail("phone cancelled: declined".into()))
    );
    assert_eq!(
        pair_step(PairState::AwaitingVerdict, PairEvent::Reply(error("x"))),
        (PairState::Over, PairAction::Fail("phone error: x".into()))
    );
    assert_eq!(
        pair_step(PairState::AwaitingVerdict, PairEvent::Reply(ServerMessage::Bye)),
        (PairState::Over, PairAction::Unexpected)
    );
}

#[test]
fn waits_double_up_to_fifteen_seconds() {
    let mut h = Heartbeat::new();
    let mut waits: Vec<u64> = vec![];
    let mut signals: Vec<Option<Signal>> = vec![];
    for _ in 0..6 {
        let r = h.step(&BeatEvent::ConnectFailed);
        signals.push(r.signal);
        match r.order {
            Order::Connect { after_secs } => waits.push(after_secs),
            _ => panic!("no other order"),
        }
    }
    assert_eq!(waits, vec![1, 2, 4, 8, 15, 15]);
    assert_eq!(signals, vec![Some(Signal::Dead), None, None, None, None, None]);
    assert_eq!(h.step(&BeatEvent::Connected).order, Order::SendHello);
    assert_eq!(h.backoff_secs, 1);
}

#[test]
fn open_session_turns_doubtful_and_dead() {
    let mut h = Heartbeat::new();
    h.step(&BeatEvent::Connected);
    let r = h.step(&BeatEvent::Greeted { message: hello_ok(1), now: 1000 });
    assert_eq!((r.signal, r.order), (Some(Signal::Alive), Order::Watch));
    assert_eq!(h.step(&BeatEvent::PingSent { now: 1000 + YELLOW_NANOS }).signal, None);
    let r = h.step(&BeatEvent::PingSent { now: 1001 + YELLOW_NANOS });
    assert_eq!(r.signal, Some(Signal::Doubtful));
    assert_eq!(h.step(&BeatEvent::PingSent { now: 1002 + YELLOW_NANOS }).signal, None);
    assert_eq!(h.step(&BeatEvent::Pong { now: 2000 }).signal, Some(Signal::Alive));
    let r = h.step(&BeatEvent::PingSent { now: 2001 + DEAD_NANOS });
    assert_eq!((r.signal, r.order), (Some(Signal::Dead), Order::Connect { after_secs: 1 }));
    assert_eq!(h.phase, Phase::Connecting);
}

#[test]
fn rejected_token_ends_the_heartbeat() {
    let mut h = Heartbeat::new();
    h.step(&BeatEvent::Connected);
    let r = h.step(&BeatEvent::Greeted { message: error("Invalid TOKEN"), now: 1 });
    assert_eq!((r.signal, r.order), (Some(Signal::TokenRejected), Order::Stop));
    assert_eq!(h.step(&BeatEvent::Connected).order, Order::Stop);
}

#[test]
fn other_refusals_are_tried_again() {
    let mut h = Heartbeat::new();
    h.step(&BeatEvent::Connected);
    let r = h.step(&BeatEvent::Greeted { message: error("busy"), now: 1 });
    assert_eq!((r.signal, r.order), (Some(Signal::Dead), Order::Connect { after_secs: 1 }));
    let mut h = Heartbeat::new();
    h.step(&BeatEvent::Connected);
    let r = h.step(&BeatEvent::Greeted { message: error("NOT AUTHORISED"), now: 1 });
    assert_eq!(r.signal, Some(Signal::TokenRejected));
}

#[test]
fn failed_hello_is_told_and_tried_again() {
    let mut h = Heartbeat::new();
    h.step(&BeatEvent::Connected);
    let r = h.step(&BeatEvent::HelloFailed);
    assert_eq!((r.signal, r.order), (Some(Signal::Dead), Order::Connect { after_secs: 0 }));
    assert_eq!(h.phase, Phase::Connecting);
    assert_eq!(h.backoff_secs, 1);
}

#[test]
fn run_of_events_tells_alive_between_deaths() {
    let mut h = Heartbeat::new();
    let events = vec![
        BeatEvent::ConnectFailed,
        BeatEvent::Connected,
        BeatEvent::HelloFailed,
        BeatEvent::Connected,
        BeatEvent::Greeted { message: hello_ok(1), now: 0 },
        BeatEvent::PingFailed,
        BeatEvent::ConnectFailed,
        BeatEvent::Connected,
        BeatEvent::Greeted { message: error("bad token"), now: 1 },
        BeatEvent::Connected,
        BeatEvent::Closed,
    ];
    let told: Vec<Signal> = events.iter().filter_map(|e| h.step(e).signal).collect();
    assert_eq!(told, vec![Signal::Dead, Signal::Alive, Signal::Dead, Signal::TokenRejected]);
    assert_eq!(h.phase, Phase::Stopped);
}

#[test]
fn heartbeat_needs_a_token() {
    let mut s = Settings::default();
    assert_eq!(heartbeat_token(&s), None);
    s.device_token = Some("".into());
    assert_eq!(heartbeat_token(&s), None);
    s.device_token = Some("t".into());
    assert_eq!(heartbeat_token(&s), Some("t".to_string()));
}
