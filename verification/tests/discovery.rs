use musicsync::discovery::{
    best_local_ip, broadcast_targets, choose_host, desktop_identity, devices_to_probe, found_phone,
    local_addresses, probe, probe_event, reply_json, unicast_targets, Address, Announcements,
    Interface, Replies, Service, ServiceAddress, DISCOVERY_PORT, REPLY_PREAMBLE,
};
use musicsync::settings::{RecentDevice, Settings};

fn address(a: u8, b: u8, c: u8, d: u8) -> Address {
    Address { a, b, c, d }
}

fn interfaces() -> Vec<Interface> {
    vec![
        Interface { loopback: true, v4: Some(address(127, 0, 0, 1)) },
        Interface { loopback: false, v4: None },
        Interface { loopback: false, v4: Some(address(169, 254, 3, 4)) },
        Interface { loopback: false, v4: Some(address(192, 168, 0, 42)) },
        Interface { loopback: false, v4: Some(address(10, 0, 7, 1)) },
    ]
}

#[test]
fn usable_addresses_are_found() {
    assert_eq!(DISCOVERY_PORT, 7799);
    assert_eq!(REPLY_PREAMBLE, "MUSICSYNC_HERE");
    assert_eq!(probe(), "MUSICSYNC_DISCOVER\n");
    assert_eq!(
        local_addresses(&interfaces()),
        vec![address(192, 168, 0, 42), address(10, 0, 7, 1)]
    );
    assert_eq!(best_local_ip(&interfaces()), Some("192.168.0.42".to_string()));
    assert_eq!(best_local_ip(&vec![]), None);
}

#[test]
fn desktop_names_itself() {
    let some = |s: &str| Some(s.to_string());
    assert_eq!(
        desktop_identity(some("u"), some("w"), &interfaces()),
        ("u".to_string(), "192.168.0.42".to_string())
    );
    assert_eq!(desktop_identity(None, some("w"), &vec![]), ("w".to_string(), "".to_string()));
    assert_eq!(desktop_identity(None, None, &vec![]), ("".to_string(), "".to_string()));
}

#[test]
fn questions_go_to_everyone_once() {
    let mine = vec![address(192, 168, 0, 42), address(192, 168, 0, 43), address(10, 0, 7, 1)];
    let targets = broadcast_targets(&mine);
    assert_eq!(targets.len(), 3);
    for t in [address(255, 255, 255, 255), address(192, 168, 0, 255), address(10, 0, 7, 255)] {
        assert!(targets.contains(&t));
    }
    let hosts = unicast_targets(&vec![address(10, 0, 7, 1)]);
    assert_eq!(hosts.len(), 253);
    assert_eq!(hosts[0], address(10, 0, 7, 2));
    assert_eq!(hosts[252], address(10, 0, 7, 254));
}

#[test]
fn answer_tells_of_a_phone() {
    let mut replies = Replies::new();
    let payload = b"MUSICSYNC_HERE {\"name\":\"Pixel\",\"id\":\"abc\",\"port\":7801}\n";
    let found = replies.take("10.0.0.5:7799", payload, "10.0.0.5").unwrap();
    assert_eq!(found.ws_url, "ws://10.0.0.5:7801");
    assert_eq!(found.device_name, "Pixel");
    assert_eq!(found.device_id, "abc");
    assert_eq!(found.host, "10.0.0.5");
    assert_eq!(found.port, 7801);
    assert_eq!(replies.take("10.0.0.5:7799", payload, "10.0.0.5"), None);
    assert!(replies.take("10.0.0.6:7799", payload, "10.0.0.6").is_some());
}

#[test]
fn answer_without_members_has_defaults() {
    let found = Replies::new().take("s", b"MUSICSYNC_HERE{\"name\":5,\"port\":-1}", "h").unwrap();
    assert_eq!(found.device_name, "(unknown)");
    assert_eq!(found.device_id, "");
    assert_eq!(found.ws_url, "ws://h:7800");
    let found = Replies::new().take("s", b"MUSICSYNC_HERE {\"port\":65537}", "h").unwrap();
    assert_eq!(found.port, 1);
}

#[test]
fn answers_that_are_none_are_left_out() {
    assert_eq!(Replies::new().take("s", b"HELLO {}", "h"), None);
    assert_eq!(Replies::new().take("s", b"MUSICSYNC_HERE", "h"), None);
    assert_eq!(Replies::new().take("s", b"MUSICSYNC_HERE {nope}", "h"), None);
    assert_eq!(Replies::new().take("s", b"MUSICSYNC_HERE {\"name\":\"\xff\"}", "h"), None);
    assert_eq!(reply_json(" MUSICSYNC_HERE x{a} "), Some("{a}".to_string()));
    assert_eq!(reply_json("MUSICSYNC_HERE"), Some("".to_string()));
    assert_eq!(reply_json("x"), None);
    let mut replies = Replies::new();
    assert_eq!(replies.take("s", b"junk", "h"), None);
    assert_eq!(replies.take("s", b"MUSICSYNC_HERE {}", "h"), None);
}

#[test]
fn found_phone_keeps_what_is_told() {
    let e = found_phone(Some("N".into()), Some("I".into()), Some(9), "h");
    assert_eq!((e.device_name.as_str(), e.device_id.as_str(), e.port), ("N", "I", 9));
    assert_eq!(e.ws_url, "ws://h:9");
}

fn service(addresses: Vec<ServiceAddress>, name: Option<&str>) -> Service {
    Service {
        addresses,
        port: 7800,
        fullname: "x._musicsync._tcp.local.".into(),
        hostname: "pixel.local.".into(),
        name: name.map(|s| s.to_string()),
        id: None,
    }
}

#[test]
fn announcements_are_taken_once() {
    let v4 = || ServiceAddress { is_v4: true, text: "10.0.0.5".into() };
    let v6 = || ServiceAddress { is_v4: false, text: "fe80::1".into() };
    assert_eq!(choose_host(&vec![v6(), v4()]), Some("10.0.0.5".to_string()));
    assert_eq!(choose_host(&vec![v6()]), Some("fe80::1".to_string()));
    assert_eq!(choose_host(&vec![]), None);
    let mut heard = Announcements::new();
    assert_eq!(heard.take(&service(vec![], Some("N"))), None);
    let found = heard.take(&service(vec![v6(), v4()], None)).unwrap();
    assert_eq!(found.device_name, "pixel.local");
    assert_eq!(found.device_id, "");
    assert_eq!(found.ws_url, "ws://10.0.0.5:7800");
    assert_eq!(heard.take(&service(vec![v4()], Some("N"))), None);
    let named = Announcements::new().take(&service(vec![v4()], Some("N"))).unwrap();
    assert_eq!(named.device_name, "N");
}

fn recent(id: &str, url: &str) -> RecentDevice {
    RecentDevice {
        device_id: id.into(),
        device_name: "Before".into(),
        ws_url: url.into(),
        last_seen_ms: 1,
    }
}

#[test]
fn devices_of_before_are_asked_with_a_token() {
    let mut s = Settings::default();
    s.recent_devices = vec![recent("a", "ws://h:1")];
    assert!(devices_to_probe(&s).is_empty());
    s.device_token = Some("".into());
    assert!(devices_to_probe(&s).is_empty());
    s.device_token = Some("t".into());
    assert_eq!(devices_to_probe(&s), vec![recent("a", "ws://h:1")]);
}

#[test]
fn device_of_before_is_found_again() {
    let e = probe_event(&recent("a", "ws://10.0.0.5:7801"), "a".into(), "Now".into()).unwrap();
    assert_eq!(e.host, "10.0.0.5");
    assert_eq!(e.port, 7801);
    assert_eq!(e.device_name, "Now");
    assert_eq!(probe_event(&recent("a", "ws://h:1"), "b".into(), "Now".into()), None);
    let e = probe_event(&recent("", "wss://h"), "b".into(), "Now".into()).unwrap();
    assert_eq!((e.host.as_str(), e.port, e.device_id.as_str()), ("h", 7800, "b"));
}
