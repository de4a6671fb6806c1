//! Laws on finding a phone on the network.
use vstd::prelude::*;
use vstd::utf8::*;

use crate::discovery::{
    announced_at, everyone, found_again, found_at, host_of, host_of_url, is_first_v4, json_number,
    json_part, json_text, neighbours, neighbours_up_to, network_of, payload_text, port_of_url,
    probe_text, probed_devices, reply_of, without_prefixes, ws_url_of, Address, Interface, Service,
    ServiceAddress,
};
use crate::laws::texts::{
    before_first_is_exact, behind_last_is_exact, joining_adds_parts, splitting_undoes_joining,
    white_ends_are_trimmed,
};
use crate::numbers::{
    all_digits, decimal, decimal_reads_back, is_digit, parsed_number, unsigned_part,
};
use crate::settings::{RecentView, SettingsView};
use crate::text::{before_first, has_prefix, is_white, split_on, trimmed_end, white_trimmed};

verus! {

/// A decimal number holds digits alone.
pub(crate) proof fn number_holds_no(n: nat, c: char)
    requires
        !is_digit(c),
    ensures
        !decimal(n).contains(c),
{
    decimal_reads_back(n);
    let d = decimal(n);
    if d.contains(c) {
        let k = choose|k: int| 0 <= k < d.len() && d[k] == c;
        assert(is_digit(d[k]));
    }
}

/// An address is written as its four numbers, from the first to the last, with
/// dots between them.
pub proof fn address_is_four_numbers(a: Address)
    ensures
        split_on(a.text(), '.') == seq![
            decimal(a.a as nat),
            decimal(a.b as nat),
            decimal(a.c as nat),
            decimal(a.d as nat),
        ],
{
    reveal_strlit(".");
    let dot = seq!['.'];
    assert("."@ =~= dot);
    let p = seq![
        decimal(a.a as nat),
        decimal(a.b as nat),
        decimal(a.c as nat),
        decimal(a.d as nat),
    ];
    number_holds_no(a.a as nat, '.');
    number_holds_no(a.b as nat, '.');
    number_holds_no(a.c as nat, '.');
    number_holds_no(a.d as nat, '.');
    assert forall|i: int| 0 <= i < p.len() implies !(#[trigger] p[i]).contains('.') by {
        assert(i == 0 || i == 1 || i == 2 || i == 3);
    }
    splitting_undoes_joining(p, '.');
    let p1 = seq![p[0]];
    let p2 = p1.push(p[1]);
    let p3 = p2.push(p[2]);
    joining_adds_parts(Seq::empty(), p[0], dot);
    joining_adds_parts(p1, p[1], dot);
    joining_adds_parts(p2, p[2], dot);
    joining_adds_parts(p3, p[3], dot);
    assert(p3.push(p[3]) =~= p);
}

/// An interface is reached by its IPv4 address, unless it is a loopback or has
/// given itself the address, which is then one from 169.254.0.0 on.
pub proof fn reachable_addresses_are_used(i: Interface, a: Address)
    ensures
        i.usable() == Some(a) <==> i.v4 == Some(a) && !i.loopback && !(a.a == 169 && a.b == 254),
{
}

/// Everyone is asked at 255.255.255.255, and everyone on the network of an
/// address at that address with 255 as its last number.
pub proof fn everyone_is_asked(a: Address)
    ensures
        everyone().a == 255 && everyone().b == 255 && everyone().c == 255 && everyone().d == 255,
        network_of(a).a == a.a && network_of(a).b == a.b && network_of(a).c == a.c && network_of(
            a,
        ).d == 255,
{
}

/// The neighbours of an address are the hosts from 1 up to 254 on its network,
/// each once and in order, but for the address itself.
pub proof fn neighbours_are_the_other_hosts(a: Address, t: Address, last: nat, i: int, j: int)
    requires
        last <= 254,
    ensures
        neighbours_up_to(a, last).contains(t) <==> t.a == a.a && t.b == a.b && t.c == a.c
            && 1 <= t.d <= last && t.d != a.d,
        0 <= i < j < neighbours_up_to(a, last).len() ==> neighbours_up_to(a, last)[i].d
            < neighbours_up_to(a, last)[j].d,
    decreases last,
{
    let all = neighbours_up_to(a, last);
    if last > 0 {
        let before = neighbours_up_to(a, (last - 1) as nat);
        neighbours_are_the_other_hosts(a, t, (last - 1) as nat, i, j);
        if last != a.d {
            let x = Address { d: last as u8, ..a };
            assert(all == before.push(x));
            if before.contains(t) {
                let k = choose|k: int| 0 <= k < before.len() && before[k] == t;
                assert(all[k] == t);
            }
            if t == x {
                assert(all[before.len() as int] == t);
            }
            if all.contains(t) {
                let k = choose|k: int| 0 <= k < all.len() && all[k] == t;
                if k < before.len() {
                    assert(before[k] == t);
                }
            }
            if 0 <= i < j && j == before.len() {
                assert(before.contains(before[i]));
                neighbours_are_the_other_hosts(a, before[i], (last - 1) as nat, i, j);
            }
        }
    }
}

/// The networks of several addresses are asked one after the other.
pub proof fn networks_are_asked_in_turn(addresses: Seq<Address>, a: Address)
    ensures
        neighbours(Seq::empty()).len() == 0,
        neighbours(addresses.push(a)) == neighbours(addresses) + neighbours_up_to(a, 254),
{
    assert(addresses.push(a).drop_last() =~= addresses);
}

/// A phone that answers is found at the host that the answer came from, on the
/// port that it tells or else on 7800, with the ID and the name that it tells;
/// an ID that it does not tell is empty, and a name `(unknown)`.
pub proof fn answering_phone_is_found(
    name: Option<Seq<char>>,
    id: Option<Seq<char>>,
    port: Option<u64>,
    host: Seq<char>,
)
    ensures
        ({
            let f = found_at(name, id, port, host);
            &&& f.host == host
            &&& f.ws_url == "ws://"@ + host + ":"@ + decimal(f.port as nat)
            &&& port is None ==> f.port == 7800
            &&& port matches Some(n) ==> f.port == n % 65536
            &&& id matches Some(t) ==> f.device_id == t
            &&& id is None ==> f.device_id.len() == 0
            &&& name matches Some(t) ==> f.device_name == t
            &&& name is None ==> f.device_name == "(unknown)"@
        }),
{
}

/// An answer begins with `MUSICSYNC_HERE`, white space around it aside, and
/// its JSON begins at the first brace: the phone is found where that is JSON,
/// with the name, the ID and the port in it. Any other answer is none.
pub proof fn answer_is_read_from_its_json(
    front: Seq<char>,
    between: Seq<char>,
    j: Seq<char>,
    back: Seq<char>,
    host: Seq<char>,
)
    requires
        forall|i: int| 0 <= i < front.len() ==> is_white(#[trigger] front[i]),
        forall|i: int| 0 <= i < back.len() ==> is_white(#[trigger] back[i]),
        !between.contains('{'),
        j.len() > 0,
        j[0] == '{',
        !is_white(j.last()),
    ensures
        ({
            let text = front + ("MUSICSYNC_HERE"@ + between + j) + back;
            &&& json_text(j, "name"@) is None ==> reply_of(text, host) is None
            &&& json_text(j, "name"@) is Some ==> reply_of(text, host) == Some(
                found_at(
                    json_text(j, "name"@)->0,
                    if json_text(j, "id"@) is Some {
                        json_text(j, "id"@)->0
                    } else {
                        None
                    },
                    if json_number(j, "port"@) is Some {
                        json_number(j, "port"@)->0
                    } else {
                        None
                    },
                    host,
                ),
            )
        }),
{
    reveal_strlit("MUSICSYNC_HERE");
    let pre = "MUSICSYNC_HERE"@;
    let t = pre + between + j;
    assert(t[0] == 'M');
    assert(t.last() == j.last());
    white_ends_are_trimmed(t, front, back);
    assert(t.subrange(0, 14) =~= pre);
    let head = pre + between;
    assert forall|i: int| 0 <= i < head.len() implies head[i] != '{' by {
        if i < 14 {
            assert(head[i] == pre[i]);
        } else {
            assert(between.contains(between[i - 14]));
        }
    }
    assert(!head.contains('{'));
    before_first_is_exact(head, j.drop_first(), '{');
    assert(head + seq!['{'] + j.drop_first() =~= t);
    assert(json_part(t) =~= j);
}

/// An answer without a brace is read from an empty JSON.
pub proof fn answer_without_json(
    front: Seq<char>,
    between: Seq<char>,
    back: Seq<char>,
    host: Seq<char>,
)
    requires
        forall|i: int| 0 <= i < front.len() ==> is_white(#[trigger] front[i]),
        forall|i: int| 0 <= i < back.len() ==> is_white(#[trigger] back[i]),
        !between.contains('{'),
        between.len() > 0 ==> !is_white(between.last()),
    ensures
        json_text(Seq::empty(), "name"@) is None ==> reply_of(
            front + ("MUSICSYNC_HERE"@ + between) + back,
            host,
        ) is None,
{
    reveal_strlit("MUSICSYNC_HERE");
    let pre = "MUSICSYNC_HERE"@;
    let t = pre + between;
    assert(t[0] == 'M');
    if between.len() == 0 {
        assert(t.last() == 'E');
    } else {
        assert(t.last() == between.last());
    }
    white_ends_are_trimmed(t, front, back);
    assert forall|i: int| 0 <= i < t.len() implies t[i] != '{' by {
        if i < 14 {
            assert(t[i] == pre[i]);
        } else {
            assert(between.contains(between[i - 14]));
        }
    }
    assert(!t.contains('{'));
    before_first_is_exact(t, Seq::empty(), '{');
    assert(json_part(t) =~= Seq::empty());
}

/// What does not begin with the preamble is no answer.
pub proof fn other_text_is_no_answer(text: Seq<char>, host: Seq<char>)
    requires
        !has_prefix(white_trimmed(text), "MUSICSYNC_HERE"@),
    ensures
        reply_of(text, host) is None,
{
}

/// The text of a payload is the text whose UTF-8 it is; bytes that are no UTF-8
/// are no text.
pub proof fn payload_is_read_as_text(t: Seq<char>, bytes: Seq<u8>)
    ensures
        payload_text(encode_utf8(t)) == t,
        !valid_utf8(bytes) ==> payload_text(bytes).len() == 0,
{
    encode_utf8_valid_utf8(t);
    encode_utf8_decode_utf8(t);
}

/// An announced service is reached at its first IPv4 address, or where it has
/// none at its first address; without an address it is not reached.
pub proof fn first_ipv4_address_is_used(addresses: Seq<ServiceAddress>, i: int)
    ensures
        0 <= i < addresses.len() && addresses[i].is_v4 && (forall|j: int|
            0 <= j < i ==> !addresses[j].is_v4) ==> host_of(addresses) == Some(addresses[i].text@),
        addresses.len() > 0 && (forall|j: int| 0 <= j < addresses.len() ==> !addresses[j].is_v4)
            ==> host_of(addresses) == Some(addresses[0].text@),
        addresses.len() == 0 ==> host_of(addresses) is None,
{
    if 0 <= i < addresses.len() && addresses[i].is_v4 && (forall|j: int|
        0 <= j < i ==> !addresses[j].is_v4) {
        assert(is_first_v4(addresses, i));
        let k = choose|k: int| is_first_v4(addresses, k);
        assert(is_first_v4(addresses, k));
        assert(k == i);
    }
}

/// An announced phone has the port, the ID and the name of its announcement;
/// where it gives no name, its host name counts, without the dots at its end.
pub proof fn announced_phone_is_found(s: Service, host: Seq<char>)
    ensures
        ({
            let f = announced_at(s, host);
            &&& f.host == host
            &&& f.port == s.port
            &&& f.ws_url == "ws://"@ + host + ":"@ + decimal(s.port as nat)
            &&& s.id matches Some(t) ==> f.device_id == t@
            &&& s.id is None ==> f.device_id.len() == 0
            &&& s.name matches Some(t) ==> f.device_name == t@
            &&& s.name is None ==> f.device_name == trimmed_end(s.hostname@, '.')
        }),
{
}

/// The devices of before are asked only with a token.
pub proof fn known_devices_need_a_token(s: SettingsView)
    ensures
        s.device_token is None ==> probed_devices(s).len() == 0,
        s.device_token matches Some(t) ==> (t.len() == 0 ==> probed_devices(s).len() == 0) && (
        t.len() > 0 ==> probed_devices(s) == s.recent_devices),
{
}

/// The host and the port of a session's address, secured or not, are those in
/// it; without a port that can be read it is 7800.
pub proof fn address_of_a_session_is_read(host: Seq<char>, port: u16, rest: Seq<char>)
    requires
        !host.contains(':'),
        !host.contains('/'),
        !rest.contains(':'),
        rest.contains('x'),
    ensures
        host_of_url("ws://"@ + host + ":"@ + decimal(port as nat)) == host,
        host_of_url("wss://"@ + host + ":"@ + decimal(port as nat)) == host,
        port_of_url("ws://"@ + host + ":"@ + decimal(port as nat)) == port,
        port_of_url("wss://"@ + host + ":"@ + decimal(port as nat)) == port,
        port_of_url("ws://"@ + host + ":"@ + rest) == 7800,
{
    reveal_strlit("ws://");
    reveal_strlit("wss://");
    reveal_strlit(":");
    let d = decimal(port as nat);
    let body = host + ":"@ + d;
    let a = "ws://"@ + host + ":"@ + d;
    let b = "wss://"@ + host + ":"@ + d;
    assert(":"@ =~= seq![':']);
    no_scheme(host, d, "ws://"@);
    no_scheme(host, d, "wss://"@);
    assert(a.subrange(0, 5) =~= "ws://"@);
    assert(a.skip(5) =~= body);
    assert(b.subrange(0, 6) =~= "wss://"@);
    assert(b.skip(6) =~= body);
    if has_prefix(b, "ws://"@) {
        assert(b.subrange(0, 5)[2] == "ws://"@[2]);
    }
    assert(without_prefixes(body, "ws://"@) == body);
    assert(without_prefixes(body, "wss://"@) == body);
    assert(without_prefixes(a, "ws://"@) == body);
    assert(without_prefixes(b, "ws://"@) == b);
    assert(without_prefixes(b, "wss://"@) == body);
    before_first_is_exact(host, d, ':');
    number_holds_no(port as nat, ':');
    behind_last_is_exact("ws://"@ + host, d, ':');
    behind_last_is_exact("wss://"@ + host, d, ':');
    behind_last_is_exact("ws://"@ + host, rest, ':');
    decimal_reads_back(port as nat);
    let u = unsigned_part(rest);
    let k = choose|k: int| 0 <= k < rest.len() && rest[k] == 'x';
    if u == rest {
        assert(!is_digit(u[k]));
    } else {
        assert(u[k - 1] == 'x');
        assert(!is_digit(u[k - 1]));
    }
    assert(!all_digits(u));
}

/// The schemes in front of a session's address do not count for its host, which
/// ends at the first colon behind them; its port is what stands behind its last
/// colon, where that is a number up to 65535, and else 7800.
pub proof fn host_and_port_are_found(u: Seq<char>, a: Seq<char>, b: Seq<char>)
    ensures
        host_of_url("ws://"@ + u) == host_of_url(u),
        !has_prefix(u, "ws://"@) ==> host_of_url("wss://"@ + u) == before_first(
            without_prefixes(u, "wss://"@),
            ':',
        ),
        !has_prefix(u, "ws://"@) && !has_prefix(u, "wss://"@) ==> host_of_url(u) == before_first(
            u,
            ':',
        ),
        !b.contains(':') ==> port_of_url(a + seq![':'] + b) == (match parsed_number(b, 65535) {
            Some(n) => n as u16,
            None => 7800u16,
        }),
        !b.contains(':') ==> port_of_url(b) == (match parsed_number(b, 65535) {
            Some(n) => n as u16,
            None => 7800u16,
        }),
{
    reveal_strlit("ws://");
    reveal_strlit("wss://");
    let x = "ws://"@ + u;
    let y = "wss://"@ + u;
    assert(x.subrange(0, 5) =~= "ws://"@);
    assert(x.skip(5) =~= u);
    assert(y.subrange(0, 6) =~= "wss://"@);
    assert(y.skip(6) =~= u);
    if has_prefix(y, "ws://"@) {
        assert(y.subrange(0, 5)[2] == "ws://"@[2]);
    }
    if !b.contains(':') {
        behind_last_is_exact(a, b, ':');
    }
}

/// A host with a port begins with no scheme: it has no slash.
proof fn no_scheme(host: Seq<char>, d: Seq<char>, p: Seq<char>)
    requires
        !host.contains('/'),
        p == "ws://"@ || p == "wss://"@,
        exists|n: nat| d == decimal(n),
    ensures
        !has_prefix(host + ":"@ + d, p),
{
    reveal_strlit("ws://");
    reveal_strlit("wss://");
    reveal_strlit(":");
    let n = choose|n: nat| d == decimal(n);
    number_holds_no(n, '/');
    let s = host + ":"@ + d;
    if has_prefix(s, p) {
        let m = p.len() - 1;
        assert(s.subrange(0, p.len() as int)[m] == p[m]);
        assert(s[m] == '/');
        if m < host.len() {
            assert(host.contains(host[m]));
        } else if m > host.len() {
            assert(d.contains(d[m - host.len() - 1]));
        }
    }
}

/// A device of before is found again at the address that it had, where the
/// phone that answers there has its ID, or the ID was not known.
pub proof fn device_is_found_again_by_its_id(e: RecentView, id: Seq<char>, name: Seq<char>)
    ensures
        found_again(e, id, name) is Some <==> e.device_id.len() == 0 || e.device_id == id,
        found_again(e, id, name) matches Some(f) ==> f.ws_url == e.ws_url && f.device_id == id
            && f.device_name == name && f.host == host_of_url(e.ws_url) && f.port == port_of_url(
            e.ws_url,
        ),
{
}

/// The address of a session names its host and its port.
pub proof fn session_address_is_written(host: Seq<char>, port: u16)
    ensures
        ws_url_of(host, port) == "ws://"@ + host + ":"@ + decimal(port as nat),
{
}

/// The question that is sent to the network.
pub proof fn question_is_one_line()
    ensures
        probe_text() == "MUSICSYNC_DISCOVER\n"@,
{
}

} // verus!
