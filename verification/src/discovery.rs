//! Finding phones: whom to ask on the local network, and what the answers say.
use vstd::hash_set::StringHashSet;
use vstd::prelude::*;
use vstd::utf8::{decode_utf8, valid_utf8};

use crate::numbers::{
    all_digits, decimal, decimal_reads_back, is_digit, parse_number, parsed_number, push_decimal,
};
use crate::protocol::DEFAULT_PORT;
use crate::settings::{recent_views, RecentDevice, RecentView, Settings, SettingsView};
use crate::text::{
    after_prefix, before_first, begins_with, behind_last, chars_of, has_prefix, opt_text,
    same_text, string_from, text_before_first, text_behind_last, trim_end_char, trim_white,
    trimmed_end, white_trimmed,
};

verus! {

/// The port that phones listen on for questions.
pub const DISCOVERY_PORT: u16 = 7799;

/// What an answer begins with.
pub const REPLY_PREAMBLE: &'static str = "MUSICSYNC_HERE";

/// A phone that was found.
#[derive(Debug, PartialEq, Eq)]
pub struct DiscoveryFoundEvent {
    pub ws_url: String,
    /// Empty where the phone has none.
    pub device_id: String,
    pub device_name: String,
    pub host: String,
    pub port: u16,
}

/// A phone that was found, over characters.
#[verifier::ext_equal]
pub struct FoundView {
    pub ws_url: Seq<char>,
    pub device_id: Seq<char>,
    pub device_name: Seq<char>,
    pub host: Seq<char>,
    pub port: u16,
}

impl View for DiscoveryFoundEvent {
    type V = FoundView;

    open spec fn view(&self) -> FoundView {
        FoundView {
            ws_url: self.ws_url@,
            device_id: self.device_id@,
            device_name: self.device_name@,
            host: self.host@,
            port: self.port,
        }
    }
}

// ---------------------------------------------------------------------------
// Addresses
// ---------------------------------------------------------------------------

/// An IPv4 address.
#[derive(Debug, Clone, Copy, PartialEq, Eq, Structural)]
pub struct Address {
    pub a: u8,
    pub b: u8,
    pub c: u8,
    pub d: u8,
}

impl Address {
    /// The address as it is written.
    pub open spec fn text(self) -> Seq<char> {
        decimal(self.a as nat) + "."@ + decimal(self.b as nat) + "."@ + decimal(self.c as nat)
            + "."@ + decimal(self.d as nat)
    }

    /// Whether the address is one that an interface gives itself.
    pub open spec fn is_link_local(self) -> bool {
        self.a == 169 && self.b == 254
    }

    /// Writes the address.
    pub fn to_text(&self) -> (s: String)
        ensures
            s@ == self.text(),
    {
        let mut s = String::new();
        push_decimal(&mut s, self.a as u64);
        s.append(".");
        push_decimal(&mut s, self.b as u64);
        s.append(".");
        push_decimal(&mut s, self.c as u64);
        s.append(".");
        push_decimal(&mut s, self.d as u64);
        assert(s@ =~= self.text());
        s
    }
}

/// An address of an interface of this machine. One that is not IPv4 has none
/// here.
#[derive(Debug, Clone, Copy, PartialEq, Eq, Structural)]
pub struct Interface {
    pub loopback: bool,
    pub v4: Option<Address>,
}

impl Interface {
    /// The address, if others can reach this machine by it.
    pub open spec fn usable(self) -> Option<Address> {
        match self.v4 {
            Some(a) => if self.loopback || a.is_link_local() {
                None
            } else {
                Some(a)
            },
            None => None,
        }
    }

    /// The address, if others can reach this machine by it.
    pub fn usable_address(&self) -> (r: Option<Address>)
        ensures
            r == self.usable(),
    {
        match self.v4 {
            Some(a) => {
                if self.loopback || (a.a == 169 && a.b == 254) {
                    None
                } else {
                    Some(a)
                }
            },
            None => None,
        }
    }
}

/// The addresses by which others can reach this machine.
pub fn local_addresses(interfaces: &Vec<Interface>) -> (r: Vec<Address>)
    ensures
        r@ == interfaces@.filter_map(|i: Interface| i.usable()),
{
    let mut r: Vec<Address> = Vec::new();
    let n: usize = interfaces.len();
    let mut i: usize = 0;
    let ghost f = |i: Interface| i.usable();
    assert(interfaces@.take(0).filter_map(f) =~= Seq::empty());
    while i < n
        invariant
            n == interfaces@.len(),
            f == (|i: Interface| i.usable()),
            i <= n,
            r@ == interfaces@.take(i as int).filter_map(f),
        decreases n - i,
    {
        proof {
            interfaces@.lemma_filter_map_take_succ(f, i as int);
        }
        if let Some(a) = interfaces[i].usable_address() {
            let ghost had = r@;
            r.push(a);
            assert(r@ =~= had + seq![a]);
        }
        i = i + 1;
    }
    assert(interfaces@.take(n as int) =~= interfaces@);
    r
}

/// The first address by which others can reach this machine, as it is written.
pub fn best_local_ip(interfaces: &Vec<Interface>) -> (r: Option<String>)
    ensures
        opt_text(r) == ({
            let usable = interfaces@.filter_map(|i: Interface| i.usable());
            if usable.len() > 0 {
                Some(usable[0].text())
            } else {
                None
            }
        }),
{
    let addresses: Vec<Address> = local_addresses(interfaces);
    if addresses.len() > 0 {
        Some(addresses[0].to_text())
    } else {
        None
    }
}

/// How this desktop names itself: the user, by `USER` or else `USERNAME`, and
/// the address, each empty where it is not known.
pub fn desktop_identity(
    user: Option<String>,
    username: Option<String>,
    interfaces: &Vec<Interface>,
) -> (r: (String, String))
    ensures
        r.0@ == match (opt_text(user), opt_text(username)) {
            (Some(u), _) => u,
            (None, Some(u)) => u,
            (None, None) => Seq::empty(),
        },
        r.1@ == ({
            let usable = interfaces@.filter_map(|i: Interface| i.usable());
            if usable.len() > 0 {
                usable[0].text()
            } else {
                Seq::empty()
            }
        }),
{
    let name: String = match user {
        Some(u) => u,
        None => match username {
            Some(u) => u,
            None => String::new(),
        },
    };
    let host: String = match best_local_ip(interfaces) {
        Some(h) => h,
        None => String::new(),
    };
    (name, host)
}

// ---------------------------------------------------------------------------
// Questions
// ---------------------------------------------------------------------------

/// The question.
pub open spec fn probe_text() -> Seq<char> {
    "MUSICSYNC_DISCOVER\n"@
}

/// The question.
pub fn probe() -> (s: String)
    ensures
        s@ == probe_text(),
{
    "MUSICSYNC_DISCOVER\n".to_owned()
}

/// The address of everyone.
pub open spec fn everyone() -> Address {
    Address { a: 255, b: 255, c: 255, d: 255 }
}

/// The address of everyone on the network of an address.
pub open spec fn network_of(a: Address) -> Address {
    Address { d: 255, ..a }
}

/// Whether a list holds an address.
fn has_address(v: &Vec<Address>, a: Address) -> (r: bool)
    ensures
        r == v@.contains(a),
{
    let n: usize = v.len();
    let mut i: usize = 0;
    while i < n
        invariant
            n == v@.len(),
            i <= n,
            forall|j: int| 0 <= j < i ==> v@[j] != a,
        decreases n - i,
    {
        if v[i] == a {
            return true;
        }
        i = i + 1;
    }
    false
}

/// The addresses of everyone: in general, and on the networks of the given
/// addresses, each once.
pub fn broadcast_targets(addresses: &Vec<Address>) -> (r: Vec<Address>)
    ensures
        r@.no_duplicates(),
        forall|t: Address| #[trigger]
            r@.contains(t) <==> t == everyone() || exists|i: int|
                0 <= i < addresses@.len() && t == network_of(#[trigger] addresses@[i]),
{
    let mut r: Vec<Address> = Vec::new();
    let first = Address { a: 255, b: 255, c: 255, d: 255 };
    r.push(first);
    let n: usize = addresses.len();
    let mut i: usize = 0;
    proof {
        assert forall|t: Address| #[trigger] r@.contains(t) <==> t == everyone() by {
            assert(r@[0] == everyone());
        }
    }
    while i < n
        invariant
            n == addresses@.len(),
            i <= n,
            r@.no_duplicates(),
            forall|t: Address| #[trigger]
                r@.contains(t) <==> t == everyone() || exists|j: int|
                    0 <= j < i && t == network_of(#[trigger] addresses@[j]),
        decreases n - i,
    {
        let a: Address = addresses[i];
        let t = Address { a: a.a, b: a.b, c: a.c, d: 255 };
        let ghost had = r@;
        assert(t == network_of(addresses@[i as int]));
        if !has_address(&r, t) {
            r.push(t);
        }
        proof {
            assert forall|x: Address| #[trigger] r@.contains(x) <==> x == everyone()
                || exists|j: int| 0 <= j < i + 1 && x == network_of(#[trigger] addresses@[j]) by {
                assert(had.contains(x) <==> x == everyone() || exists|j: int|
                    0 <= j < i && x == network_of(#[trigger] addresses@[j]));
                if had.contains(x) {
                    let k = choose|k: int| 0 <= k < had.len() && had[k] == x;
                    assert(r@[k] == x);
                    if x != everyone() {
                        let j = choose|j: int|
                            0 <= j < i && x == network_of(#[trigger] addresses@[j]);
                        assert(0 <= j < i + 1 && x == network_of(addresses@[j]));
                    }
                }
                if x == t {
                    assert(x == network_of(addresses@[i as int]));
                    if !had.contains(t) {
                        assert(r@[had.len() as int] == x);
                    }
                }
                if r@.contains(x) && !had.contains(x) {
                    let k = choose|k: int| 0 <= k < r@.len() && r@[k] == x;
                    if k < had.len() {
                        assert(had[k] == x);
                    }
                }
                if exists|j: int| 0 <= j < i + 1 && x == network_of(#[trigger] addresses@[j]) {
                    let j = choose|j: int|
                        0 <= j < i + 1 && x == network_of(#[trigger] addresses@[j]);
                    if j < i {
                        assert(0 <= j < i && x == network_of(addresses@[j]));
                    }
                }
            }
        }
        i = i + 1;
    }
    r
}

/// The other hosts from number 1 up to and with number `last` on the network
/// of an address.
pub open spec fn neighbours_up_to(a: Address, last: nat) -> Seq<Address>
    decreases last,
{
    if last == 0 {
        Seq::empty()
    } else {
        let before = neighbours_up_to(a, (last - 1) as nat);
        if last == a.d {
            before
        } else {
            before.push(Address { d: last as u8, ..a })
        }
    }
}

/// The other hosts on the networks of the given addresses, one network after
/// the other.
pub open spec fn neighbours(addresses: Seq<Address>) -> Seq<Address>
    decreases addresses.len(),
{
    if addresses.len() == 0 {
        Seq::empty()
    } else {
        neighbours(addresses.drop_last()) + neighbours_up_to(addresses.last(), 254)
    }
}

/// The other hosts on the networks of the given addresses.
pub fn unicast_targets(addresses: &Vec<Address>) -> (r: Vec<Address>)
    ensures
        r@ == neighbours(addresses@),
{
    let mut r: Vec<Address> = Vec::new();
    let n: usize = addresses.len();
    let mut i: usize = 0;
    assert(addresses@.take(0) =~= Seq::empty());
    while i < n
        invariant
            n == addresses@.len(),
            i <= n,
            r@ == neighbours(addresses@.take(i as int)),
        decreases n - i,
    {
        let a: Address = addresses[i];
        let ghost before = r@;
        let mut last: u8 = 0;
        assert(before + neighbours_up_to(a, 0) =~= before);
        while last < 254
            invariant
                last <= 254,
                r@ == before + neighbours_up_to(a, last as nat),
            decreases 254 - last,
        {
            last = last + 1;
            let ghost had = r@;
            if last != a.d {
                r.push(Address { a: a.a, b: a.b, c: a.c, d: last });
                assert(r@ =~= before + neighbours_up_to(a, last as nat));
            }
        }
        proof {
            assert(addresses@.take(i + 1).drop_last() =~= addresses@.take(i as int));
        }
        i = i + 1;
    }
    assert(addresses@.take(n as int) =~= addresses@);
    r
}

// ---------------------------------------------------------------------------
// Answers
// ---------------------------------------------------------------------------

/// The address of a session on a host and a port.
pub open spec fn ws_url_of(host: Seq<char>, port: u16) -> Seq<char> {
    "ws://"@ + host + ":"@ + decimal(port as nat)
}

/// The address of a session on a host and a port.
fn make_ws_url(host: &str, port: u16) -> (s: String)
    ensures
        s@ == ws_url_of(host@, port),
{
    let mut s: String = "ws://".to_owned();
    s.append(host);
    s.append(":");
    push_decimal(&mut s, port as u64);
    s
}

/// The phone that an answer from a host tells of. What it does not tell has a
/// default; of the port the last 16 bits count.
pub open spec fn found_at(
    name: Option<Seq<char>>,
    id: Option<Seq<char>>,
    port: Option<u64>,
    host: Seq<char>,
) -> FoundView {
    let p = match port {
        Some(n) => (n % 65536) as u16,
        None => DEFAULT_PORT,
    };
    FoundView {
        ws_url: ws_url_of(host, p),
        device_id: match id {
            Some(t) => t,
            None => Seq::empty(),
        },
        device_name: match name {
            Some(t) => t,
            None => "(unknown)"@,
        },
        host,
        port: p,
    }
}

/// The phone that an answer from a host tells of.
pub fn found_phone(
    name: Option<String>,
    id: Option<String>,
    port: Option<u64>,
    host: &str,
) -> (r: DiscoveryFoundEvent)
    ensures
        r@ == found_at(opt_text(name), opt_text(id), port, host@),
{
    let device_name: String = match name {
        Some(t) => t,
        None => "(unknown)".to_owned(),
    };
    let device_id: String = match id {
        Some(t) => t,
        None => String::new(),
    };
    let port: u16 = match port {
        Some(n) => (n % 65536) as u16,
        None => DEFAULT_PORT,
    };
    DiscoveryFoundEvent {
        ws_url: make_ws_url(host, port),
        device_id,
        device_name,
        host: host.to_owned(),
        port,
    }
}

/// The text under a key of a JSON object: `None` where the text is no JSON, and
/// in it `None` where it has no such member or one that is no text.
pub uninterp spec fn json_text(text: Seq<char>, key: Seq<char>) -> Option<Option<Seq<char>>>;

/// The number under a key of a JSON object: `None` where the text is no JSON,
/// and in it `None` where it has no such member or one that is no number from
/// 0 up to 2 to the power of 64.
pub uninterp spec fn json_number(text: Seq<char>, key: Seq<char>) -> Option<Option<u64>>;

/// `serde_json::from_str` into a `Value`, then `Value::get` and
/// `Value::as_str`. The result depends on the text and the key alone.
#[verifier::external_body]
fn read_json_text(text: &str, key: &str) -> (r: Option<Option<String>>)
    ensures
        match r {
            Some(v) => json_text(text@, key@) == Some(opt_text(v)),
            None => json_text(text@, key@) is None,
        },
{
    match serde_json::from_str::<serde_json::Value>(text) {
        Ok(v) => match v.get(key) {
            Some(m) => match m.as_str() {
                Some(s) => Some(Some(s.to_owned())),
                None => Some(None),
            },
            None => Some(None),
        },
        Err(_) => None,
    }
}

/// `serde_json::from_str` into a `Value`, then `Value::get` and
/// `Value::as_u64`. The result depends on the text and the key alone.
#[verifier::external_body]
fn read_json_number(text: &str, key: &str) -> (r: Option<Option<u64>>)
    ensures
        r == json_number(text@, key@),
{
    match serde_json::from_str::<serde_json::Value>(text) {
        Ok(v) => match v.get(key) {
            Some(m) => Some(m.as_u64()),
            None => Some(None),
        },
        Err(_) => None,
    }
}

/// `std::str::from_utf8`: the characters of bytes that are UTF-8.
#[verifier::external_body]
fn read_utf8(bytes: &[u8]) -> (r: Option<String>)
    ensures
        match r {
            Some(s) => valid_utf8(bytes@) && s@ == decode_utf8(bytes@),
            None => !valid_utf8(bytes@),
        },
{
    match std::str::from_utf8(bytes) {
        Ok(s) => Some(s.to_owned()),
        Err(_) => None,
    }
}

/// The characters of bytes, or none where they are no UTF-8.
pub open spec fn payload_text(bytes: Seq<u8>) -> Seq<char> {
    if valid_utf8(bytes) {
        decode_utf8(bytes)
    } else {
        Seq::empty()
    }
}

/// The part of a text from its first `{` on.
pub open spec fn json_part(s: Seq<char>) -> Seq<char> {
    s.skip(before_first(s, '{').len() as int)
}

/// What is in an optional value of an optional value.
pub open spec fn flat<T>(o: Option<Option<T>>) -> Option<T> {
    match o {
        Some(v) => v,
        None => None,
    }
}

/// The phone that an answer tells of: one that begins with the preamble and
/// then holds a JSON object.
pub open spec fn reply_of(text: Seq<char>, host: Seq<char>) -> Option<FoundView> {
    let t = white_trimmed(text);
    let j = json_part(t);
    if has_prefix(t, REPLY_PREAMBLE@) && json_text(j, "name"@) is Some {
        Some(
            found_at(
                flat(json_text(j, "name"@)),
                flat(json_text(j, "id"@)),
                flat(json_number(j, "port"@)),
                host,
            ),
        )
    } else {
        None
    }
}

/// A phone that may have been found, over characters.
pub open spec fn opt_found(o: Option<DiscoveryFoundEvent>) -> Option<FoundView> {
    match o {
        Some(e) => Some(e@),
        None => None,
    }
}

/// The JSON of an answer: what follows the preamble, from the first `{` on.
pub fn reply_json(text: &str) -> (r: Option<String>)
    ensures
        opt_text(r) == ({
            let t = white_trimmed(text@);
            if has_prefix(t, REPLY_PREAMBLE@) {
                Some(json_part(t))
            } else {
                None
            }
        }),
{
    let t: String = trim_white(text);
    if !begins_with(t.as_str(), REPLY_PREAMBLE) {
        return None;
    }
    let front: String = text_before_first(t.as_str(), '{');
    let v: Vec<char> = chars_of(t.as_str());
    let f: Vec<char> = chars_of(front.as_str());
    proof {
        front_is_no_longer(t@, '{');
    }
    Some(string_from(&v, f.len()))
}

/// The part in front of a character is no longer than the whole.
proof fn front_is_no_longer(s: Seq<char>, c: char)
    ensures
        before_first(s, c).len() <= s.len(),
    decreases s.len(),
{
    if s.len() > 0 && s[0] != c {
        front_is_no_longer(s.drop_first(), c);
    }
}

/// Reads an answer from a host.
pub fn read_reply(text: &str, host: &str) -> (r: Option<DiscoveryFoundEvent>)
    ensures
        opt_found(r) == reply_of(text@, host@),
{
    match reply_json(text) {
        Some(j) => match read_json_text(j.as_str(), "name") {
            Some(name) => {
                let id: Option<String> = match read_json_text(j.as_str(), "id") {
                    Some(v) => v,
                    None => None,
                };
                let port: Option<u64> = match read_json_number(j.as_str(), "port") {
                    Some(v) => v,
                    None => None,
                };
                Some(found_phone(name, id, port, host))
            },
            None => None,
        },
        None => None,
    }
}

/// The answers of one search.
pub struct Replies {
    seen: StringHashSet,
}

impl Replies {
    /// The sources that have answered.
    pub closed spec fn sources(self) -> Set<Seq<char>> {
        self.seen@
    }

    /// No answers yet.
    pub fn new() -> (r: Self)
        ensures
            r.sources() == Set::<Seq<char>>::empty(),
    {
        Replies { seen: StringHashSet::new() }
    }

    /// Takes an answer of a source, which is on a host. Of a source only the
    /// first answer counts.
    pub fn take(&mut self, source: &str, payload: &[u8], host: &str) -> (r: Option<
        DiscoveryFoundEvent,
    >)
        ensures
            final(self).sources() == old(self).sources().insert(source@),
            opt_found(r) == if old(self).sources().contains(source@) {
                None
            } else {
                reply_of(payload_text(payload@), host@)
            },
    {
        if !self.seen.insert(source.to_owned()) {
            assert(self.sources() =~= old(self).sources().insert(source@));
            return None;
        }
        match read_utf8(payload) {
            Some(text) => read_reply(text.as_str(), host),
            None => {
                proof {
                    reveal_strlit("");
                    assert(""@ =~= Seq::empty());
                }
                read_reply("", host)
            },
        }
    }
}

// ---------------------------------------------------------------------------
// Announcements
// ---------------------------------------------------------------------------

/// An address of an announced service.
#[derive(Debug, PartialEq, Eq)]
pub struct ServiceAddress {
    pub is_v4: bool,
    pub text: String,
}

/// An announced service.
#[derive(Debug, PartialEq, Eq)]
pub struct Service {
    pub addresses: Vec<ServiceAddress>,
    pub port: u16,
    pub fullname: String,
    pub hostname: String,
    /// What it says under `name`.
    pub name: Option<String>,
    /// What it says under `id`.
    pub id: Option<String>,
}

/// Whether `i` is the first place of an IPv4 address.
pub open spec fn is_first_v4(addresses: Seq<ServiceAddress>, i: int) -> bool {
    &&& 0 <= i < addresses.len()
    &&& addresses[i].is_v4
    &&& forall|j: int| 0 <= j < i ==> !addresses[j].is_v4
}

/// The address of a service that is used: the first IPv4 address, or else the
/// first.
pub open spec fn host_of(addresses: Seq<ServiceAddress>) -> Option<Seq<char>> {
    if exists|i: int| is_first_v4(addresses, i) {
        Some(addresses[choose|i: int| is_first_v4(addresses, i)].text@)
    } else if addresses.len() > 0 {
        Some(addresses[0].text@)
    } else {
        None
    }
}

/// The address of a service that is used.
pub fn choose_host(addresses: &Vec<ServiceAddress>) -> (r: Option<String>)
    ensures
        opt_text(r) == host_of(addresses@),
{
    let n: usize = addresses.len();
    let mut i: usize = 0;
    while i < n
        invariant
            n == addresses@.len(),
            i <= n,
            forall|j: int| 0 <= j < i ==> !addresses@[j].is_v4,
        decreases n - i,
    {
        if addresses[i].is_v4 {
            proof {
                assert(is_first_v4(addresses@, i as int));
                let k = choose|k: int| is_first_v4(addresses@, k);
                assert(k == i);
            }
            return Some(addresses[i].text.clone());
        }
        i = i + 1;
    }
    proof {
        assert(forall|k: int| !is_first_v4(addresses@, k));
    }
    if n > 0 {
        Some(addresses[0].text.clone())
    } else {
        None
    }
}

/// The phone that an announcement tells of, on a host. Where it gives no name,
/// the host name counts, without dots at its end.
pub open spec fn announced_at(s: Service, host: Seq<char>) -> FoundView {
    FoundView {
        ws_url: ws_url_of(host, s.port),
        device_id: match opt_text(s.id) {
            Some(t) => t,
            None => Seq::empty(),
        },
        device_name: match opt_text(s.name) {
            Some(t) => t,
            None => trimmed_end(s.hostname@, '.'),
        },
        host,
        port: s.port,
    }
}

/// The announcements that were heard.
pub struct Announcements {
    seen: StringHashSet,
}

impl Announcements {
    /// The full names of the services that were taken.
    pub closed spec fn names(self) -> Set<Seq<char>> {
        self.seen@
    }

    /// Nothing heard yet.
    pub fn new() -> (r: Self)
        ensures
            r.names() == Set::<Seq<char>>::empty(),
    {
        Announcements { seen: StringHashSet::new() }
    }

    /// Takes an announcement. One without an address does not count, and of a
    /// service only the first counts.
    pub fn take(&mut self, s: &Service) -> (r: Option<DiscoveryFoundEvent>)
        ensures
            match host_of(s.addresses@) {
                Some(host) => {
                    &&& final(self).names() == old(self).names().insert(s.fullname@)
                    &&& opt_found(r) == if old(self).names().contains(s.fullname@) {
                        None
                    } else {
                        Some(announced_at(*s, host))
                    }
                },
                None => final(self).names() == old(self).names() && r is None,
            },
    {
        match choose_host(&s.addresses) {
            Some(host) => {
                if !self.seen.insert(s.fullname.clone()) {
                    assert(self.names() =~= old(self).names().insert(s.fullname@));
                    return None;
                }
                let device_name: String = match &s.name {
                    Some(t) => t.clone(),
                    None => trim_end_char(s.hostname.as_str(), '.'),
                };
                let device_id: String = match &s.id {
                    Some(t) => t.clone(),
                    None => String::new(),
                };
                let ws_url: String = make_ws_url(host.as_str(), s.port);
                Some(DiscoveryFoundEvent { ws_url, device_id, device_name, host, port: s.port })
            },
            None => None,
        }
    }
}

// ---------------------------------------------------------------------------
// Devices of before
// ---------------------------------------------------------------------------

/// The devices of before that are asked whether they are there: none without a
/// token.
pub open spec fn probed_devices(settings: SettingsView) -> Seq<RecentView> {
    match settings.device_token {
        Some(t) => if t.len() > 0 {
            settings.recent_devices
        } else {
            Seq::empty()
        },
        None => Seq::empty(),
    }
}

/// The devices of before that are asked whether they are there.
pub fn devices_to_probe(settings: &Settings) -> (r: Vec<RecentDevice>)
    ensures
        recent_views(r@) == probed_devices(settings@),
{
    let mut r: Vec<RecentDevice> = Vec::new();
    let paired: bool = match &settings.device_token {
        Some(t) => !t.as_str().is_empty(),
        None => false,
    };
    let ghost all = settings@.recent_devices;
    if paired {
        let n: usize = settings.recent_devices.len();
        let mut i: usize = 0;
        assert(recent_views(r@) =~= all.take(0));
        while i < n
            invariant
                n == settings.recent_devices@.len(),
                all == settings@.recent_devices,
                i <= n,
                recent_views(r@) == all.take(i as int),
            decreases n - i,
        {
            let ghost had = recent_views(r@);
            let c: RecentDevice = settings.recent_devices[i].clone();
            let ghost cv = c@;
            r.push(c);
            assert(recent_views(r@) =~= had.push(cv));
            assert(all.take(i + 1) =~= had.push(cv));
            i = i + 1;
        }
        assert(all.take(n as int) =~= all);
    } else {
        assert(recent_views(r@) =~= Seq::empty());
    }
    r
}

/// A text without any of the prefixes `p` in front of each other that it begins
/// with.
pub open spec fn without_prefixes(s: Seq<char>, p: Seq<char>) -> Seq<char>
    decreases s.len(),
{
    if p.len() > 0 && has_prefix(s, p) {
        without_prefixes(s.skip(p.len() as int), p)
    } else {
        s
    }
}

/// A text without the prefixes `p` that it begins with.
fn strip_prefixes(s: &str, p: &str) -> (r: String)
    ensures
        r@ == without_prefixes(s@, p@),
{
    let mut r: String = s.to_owned();
    if p.is_empty() {
        return r;
    }
    loop
        invariant
            p@.len() > 0,
            without_prefixes(r@, p@) == without_prefixes(s@, p@),
        ensures
            r@ == without_prefixes(s@, p@),
        decreases r@.len(),
    {
        match after_prefix(r.as_str(), p) {
            Some(rest) => {
                r = rest;
            },
            None => {
                break;
            },
        }
    }
    r
}

/// The host in the address of a session.
pub open spec fn host_of_url(url: Seq<char>) -> Seq<char> {
    before_first(without_prefixes(without_prefixes(url, "ws://"@), "wss://"@), ':')
}

/// The port in the address of a session.
pub open spec fn port_of_url(url: Seq<char>) -> u16 {
    match parsed_number(behind_last(url, ':'), u16::MAX as nat) {
        Some(n) => n as u16,
        None => DEFAULT_PORT,
    }
}

/// The device of before that is there again, if the phone that answered is
/// that one.
pub open spec fn found_again(
    entry: RecentView,
    device_id: Seq<char>,
    device_name: Seq<char>,
) -> Option<FoundView> {
    if entry.device_id.len() > 0 && device_id != entry.device_id {
        None
    } else {
        Some(
            FoundView {
                ws_url: entry.ws_url,
                device_id,
                device_name,
                host: host_of_url(entry.ws_url),
                port: port_of_url(entry.ws_url),
            },
        )
    }
}

/// What an answer of a phone at the address of a device of before means.
pub fn probe_event(entry: &RecentDevice, device_id: String, device_name: String) -> (r: Option<
    DiscoveryFoundEvent,
>)
    ensures
        opt_found(r) == found_again(entry@, device_id@, device_name@),
{
    if !entry.device_id.as_str().is_empty() && !same_text(
        device_id.as_str(),
        entry.device_id.as_str(),
    ) {
        return None;
    }
    let bare: String = strip_prefixes(entry.ws_url.as_str(), "ws://");
    let barer: String = strip_prefixes(bare.as_str(), "wss://");
    let host: String = text_before_first(barer.as_str(), ':');
    let tail: String = text_behind_last(entry.ws_url.as_str(), ':');
    let port: u16 = match parse_number(tail.as_str(), u16::MAX as u64) {
        Some(n) => n as u16,
        None => DEFAULT_PORT,
    };
    Some(
        DiscoveryFoundEvent { ws_url: entry.ws_url.clone(), device_id, device_name, host, port },
    )
}

/// The address of a session on a host names that host and that port.
pub proof fn url_names_host_and_port(host: Seq<char>, port: u16)
    requires
        !host.contains(':'),
    ensures
        host_of_url(ws_url_of(host, port)) == host,
        port_of_url(ws_url_of(host, port)) == port,
{
    let url = ws_url_of(host, port);
    let rest = host + ":"@ + decimal(port as nat);
    reveal_strlit("ws://");
    reveal_strlit("wss://");
    reveal_strlit(":");
    assert("ws://"@.len() == 5);
    assert(":"@ =~= seq![':']);
    assert(url.subrange(0, 5) =~= "ws://"@);
    assert(url.skip(5) =~= rest);
    assert(without_prefixes(url, "ws://"@) == without_prefixes(rest, "ws://"@));
    decimal_reads_back(port as nat);
    let n = host.len() as int;
    assert(rest[n] == ':');
    assert(rest[n + 1] == decimal(port as nat)[0]);
    assert(is_digit(rest[n + 1]));
    assert forall|j: int| 0 <= j < n implies rest[j] != ':' by {
        assert(rest[j] == host[j]);
        assert(host.contains(host[j]));
    }
    if has_prefix(rest, "ws://"@) {
        let front = rest.subrange(0, 5);
        assert(front[2] == ':' && front[3] == '/');
        assert(rest[2] == ':' && rest[3] == '/');
        assert(n == 2);
    }
    if has_prefix(rest, "wss://"@) {
        let front = rest.subrange(0, 6);
        assert(front[3] == ':' && front[4] == '/');
        assert(rest[3] == ':' && rest[4] == '/');
        assert(n == 3);
    }
    assert(without_prefixes(rest, "ws://"@) == rest);
    assert(without_prefixes(rest, "wss://"@) == rest);
    front_of_joined(host, decimal(port as nat));
    tail_of_joined("ws://"@ + host, decimal(port as nat));
    assert(url =~= ("ws://"@ + host) + seq![':'] + decimal(port as nat));
}

/// What stands in front of the first colon.
proof fn front_of_joined(a: Seq<char>, b: Seq<char>)
    requires
        !a.contains(':'),
    ensures
        before_first(a + ":"@ + b, ':') == a,
    decreases a.len(),
{
    reveal_strlit(":");
    assert(":"@ =~= seq![':']);
    let s = a + ":"@ + b;
    if a.len() == 0 {
        assert(s[0] == ':');
    } else {
        assert(a.contains(a[0]));
        assert(s[0] == a[0]);
        assert(s.drop_first() =~= a.drop_first() + ":"@ + b);
        assert forall|x: char| a.drop_first().contains(x) implies a.contains(x) by {
            let k = choose|k: int| 0 <= k < a.drop_first().len() && a.drop_first()[k] == x;
            assert(a[k + 1] == x);
        }
        front_of_joined(a.drop_first(), b);
        assert(seq![a[0]] + a.drop_first() =~= a);
    }
}

/// What stands behind the last colon, for a number behind it.
proof fn tail_of_joined(a: Seq<char>, b: Seq<char>)
    requires
        all_digits(b),
    ensures
        behind_last(a + seq![':'] + b, ':') == b,
    decreases b.len(),
{
    let s = a + seq![':'] + b;
    if b.len() == 0 {
        assert(s.last() == ':');
    } else {
        assert(s.last() == b.last());
        assert(is_digit(b.last()));
        assert(s.drop_last() =~= a + seq![':'] + b.drop_last());
        tail_of_joined(a, b.drop_last());
        assert(b.drop_last().push(b.last()) =~= b);
    }
}

} // verus!
