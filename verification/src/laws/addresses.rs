//! Addresses and targets, as text and as what they lead to.

use crate::direct::{chosen_ips, first_local, route_of, with_port};
use crate::ip_text::{
    group_of, groups_of, groups_value, ip_of, octet_of, side_of, split_on, v4_of, v6_groups_of,
};
use crate::common::local_ranges::local_in;
use crate::laws::bytes::{four, network_order, network_value};
use crate::net::{
    compressed_text, groups_text, ip_octets, is_ip_text, is_socket_text, is_target_host,
    is_target_text, is_v6_text, longest_run_at, target_port, target_text, v4_addr, v4_mapped,
    v4_text, v6_groups, zero_run, IpAddr, SocketAddr, Target, TargetText,
};
use crate::outbound::{
    counted, ANDROID_VPN_PROTECT_MARK, LOOKUP_TIMEOUT_SECS, RELAY_BUF_SIZE,
    TCP_KEEPALIVE_IDLE_SECS, TCP_KEEPALIVE_INTERVAL_SECS,
};
use crate::router::session_of;
use crate::shadowquic::{control_of, AddrOrDomain, CongestionControl, SocksAddr};
use crate::socks_addr::readable_addr;
use crate::text::{dec_text, digits_value, first_at, hex_number, hex_text, is_dec_digit};
use crate::wire::be_bytes;
use vstd::prelude::*;
use vstd::utf8::encode_utf8;

verus! {

/// An IPv4 address is its four numbers, the first of them the highest, and is written as they are,
/// with dots between them.
pub proof fn v4_is_four_numbers(a: u8, b: u8, c: u8, d: u8)
    ensures
        v4_addr(a, b, c, d) matches IpAddr::V4(v) ==> v == a * 0x100_0000 + b * 0x1_0000 + c * 256
            + d && v4_text(v) == dec_text(a as nat) + seq!['.'] + dec_text(b as nat) + seq!['.']
            + dec_text(c as nat) + seq!['.'] + dec_text(d as nat),
        v4_addr(a, b, c, d) is V4,
        ip_octets(v4_addr(a, b, c, d)) == seq![a, b, c, d],
{
    let v = (a * 0x100_0000 + b * 0x1_0000 + c * 256 + d) as u32;
    assert(v / 16777216 == a);
    assert(v / 65536 % 256 == b);
    assert(v / 256 % 256 == c);
    assert(v % 256 == d);
    assert(v4_text(v) =~= dec_text(a as nat) + seq!['.'] + dec_text(b as nat) + seq!['.']
        + dec_text(c as nat) + seq!['.'] + dec_text(d as nat));
    network_order(v as nat);
}

/// The eight groups of an IPv6 address are worth the address, the first of them the most.
pub proof fn v6_is_eight_groups(v: u128)
    ensures
        v6_groups(v).len() == 8,
        v6_groups(v)[0] * 0x1_0000_0000_0000_0000_0000_0000_0000 + v6_groups(v)[1]
            * 0x1_0000_0000_0000_0000_0000_0000 + v6_groups(v)[2] * 0x1_0000_0000_0000_0000_0000
            + v6_groups(v)[3] * 0x1_0000_0000_0000_0000 + v6_groups(v)[4] * 0x1_0000_0000_0000
            + v6_groups(v)[5] * 0x1_0000_0000 + v6_groups(v)[6] * 0x1_0000 + v6_groups(v)[7] == v,
        forall|i: int| 0 <= i < 8 ==> #[trigger] v6_groups(v)[i] < 65536,
{
    v6_halves(v);
}

proof fn v6_halves(v: u128)
    ensures
        v6_groups(v)[0] * 0x1_0000_0000_0000_0000_0000_0000_0000 + v6_groups(v)[1]
            * 0x1_0000_0000_0000_0000_0000_0000 + v6_groups(v)[2] * 0x1_0000_0000_0000_0000_0000
            + v6_groups(v)[3] * 0x1_0000_0000_0000_0000 + v6_groups(v)[4] * 0x1_0000_0000_0000
            + v6_groups(v)[5] * 0x1_0000_0000 + v6_groups(v)[6] * 0x1_0000 + v6_groups(v)[7] == v,
{
    let g = v6_groups(v);
    let a = v as int / 0x1_0000;
    let b = a / 0x1_0000;
    let c = b / 0x1_0000;
    let d = c / 0x1_0000;
    let e = d / 0x1_0000;
    let f = e / 0x1_0000;
    let h = f / 0x1_0000;
    assert(g[7] == v as int % 0x1_0000);
    assert(g[6] == a % 0x1_0000);
    assert(b == v as int / 0x1_0000_0000);
    assert(g[5] == b % 0x1_0000);
    assert(c == v as int / 0x1_0000_0000_0000);
    assert(g[4] == c % 0x1_0000);
    assert(d == v as int / 0x1_0000_0000_0000_0000);
    assert(g[3] == d % 0x1_0000);
    assert(e == v as int / 0x1_0000_0000_0000_0000_0000);
    assert(g[2] == e % 0x1_0000);
    assert(f == v as int / 0x1_0000_0000_0000_0000_0000_0000);
    assert(g[1] == f % 0x1_0000);
    assert(h == v as int / 0x1_0000_0000_0000_0000_0000_0000_0000);
    assert(g[0] == h);
}

/// Groups that are all zero, `k` of them from `i` on.
pub open spec fn zeros_at(g: Seq<nat>, i: int, k: int) -> bool {
    0 <= i && 0 <= k && i + k <= g.len() && forall|j: int| i <= j < i + k ==> #[trigger] g[j] == 0
}

proof fn run_is_all(g: Seq<nat>, i: int)
    requires
        0 <= i <= g.len(),
    ensures
        zeros_at(g, i, zero_run(g, i) as int),
        i + zero_run(g, i) == g.len() || g[i + zero_run(g, i)] != 0,
    decreases g.len() - i,
{
    if i < g.len() && g[i] == 0 {
        run_is_all(g, i + 1);
    }
}

/// The longest run of two or more groups that are zero is left out of the text of an IPv6 address,
/// and the first of several; where there is none, all eight groups are written.
pub proof fn zeros_are_left_out(v: u128, t: Seq<char>, s: int, k: int)
    requires
        is_v6_text(v, t),
        !v4_mapped(v),
    ensures
        zeros_at(v6_groups(v), s, k) && k >= 2 && (forall|i: int, m: int| #[trigger]
            zeros_at(v6_groups(v), i, m) ==> m < k || (m == k && i >= s)) ==> t == groups_text(
            v6_groups(v),
            0,
            s,
        ) + seq![':', ':'] + groups_text(v6_groups(v), s + k, 8),
        (forall|i: int| !#[trigger] zeros_at(v6_groups(v), i, 2)) ==> t == groups_text(
            v6_groups(v),
            0,
            8,
        ),
{
    let g = v6_groups(v);
    let c = choose|c: int| #[trigger] longest_run_at(g, c) && t == compressed_text(g, c);
    let z = zero_run(g, c) as int;
    run_is_all(g, c);
    if z >= 2 {
        assert(zeros_at(g, c, 2));
    }
    if zeros_at(g, s, k) && k >= 2 && (forall|i: int, m: int| #[trigger]
        zeros_at(g, i, m) ==> m < k || (m == k && i >= s)) {
        run_is_all(g, s);
        let y = zero_run(g, s) as int;
        assert(y >= k) by {
            if y < k {
                assert(g[s + y] == 0);
            }
        }
        assert(zeros_at(g, s, y));
        assert(y == k);
        assert(zeros_at(g, c, z));
        assert(z <= k);
        if c < s {
            assert(zero_run(g, s) <= zero_run(g, c));
        } else if s < c {
            assert(zero_run(g, s) < zero_run(g, c));
        }
        assert(c == s);
        assert(t =~= groups_text(g, 0, s) + seq![':', ':'] + groups_text(g, s + k, 8));
    }
}

/// Groups are written in hexadecimal digits with colons between them.
pub proof fn groups_are_written(g: Seq<nat>, from: int, to: int)
    ensures
        groups_text(g, from, from).len() == 0,
        groups_text(g, from, from + 1) == hex_text(g[from]),
        from + 1 < to ==> groups_text(g, from, to) == groups_text(g, from, to - 1) + seq![':']
            + hex_text(g[to - 1]),
{
    if from + 1 < to {
        assert(groups_text(g, from, to) =~= groups_text(g, from, to - 1) + seq![':'] + hex_text(
            g[to - 1],
        ));
    }
}

/// A text is split at each separator, and the parts put together again with it between them are the
/// text.
pub proof fn texts_are_split(s: Seq<char>, c: char, sep: char)
    ensures
        split_on(Seq::empty(), sep) == seq![Seq::<char>::empty()],
        split_on(s, sep).len() > 0,
        split_on(s.push(sep), sep) == split_on(s, sep).push(Seq::empty()),
        c != sep ==> split_on(s.push(c), sep) == split_on(s, sep).update(
            split_on(s, sep).len() - 1,
            split_on(s, sep).last().push(c),
        ),
{
    assert(s.push(sep).drop_last() =~= s);
    assert(s.push(c).drop_last() =~= s);
    some_part(s, sep);
    let p = split_on(s, sep);
    if c != sep {
        assert(p.drop_last().push(p.last().push(c)) =~= p.update(p.len() - 1, p.last().push(c)));
    }
}

proof fn some_part(s: Seq<char>, sep: char)
    ensures
        split_on(s, sep).len() > 0,
    decreases s.len(),
{
    if s.len() > 0 {
        some_part(s.drop_last(), sep);
    }
}

/// A number between dots has one to three digits, no zero before others, and is at most 255; a group
/// between colons has one to four hexadecimal digits.
pub proof fn parts_of_addresses(s: Seq<char>)
    ensures
        octet_of(s) matches Some(n) ==> n <= 255 && 1 <= s.len() && s.len() <= 3 && n
            == digits_value(s) && (s.len() > 1 ==> s[0] != '0') && forall|i: int|
            0 <= i < s.len() ==> is_dec_digit(#[trigger] s[i]),
        (forall|i: int| 0 <= i < s.len() ==> is_dec_digit(#[trigger] s[i])) && 1 <= s.len()
            && s.len() <= 3 && (s.len() > 1 ==> s[0] != '0') && digits_value(s) <= 255 ==> octet_of(
            s,
        ) is Some,
        group_of(s) matches Some(n) ==> 1 <= s.len() && s.len() <= 4 && hex_number(s) == Some(n),
        1 <= s.len() && s.len() <= 4 && s[0] != '+' && (hex_number(s) matches Some(n) && n
            <= u32::MAX) ==> group_of(s) == hex_number(s),
{
}

/// A text of four parts between dots is an IPv4 address where each is a number of one, the first of
/// them the highest, and no other text is; a text that is no IPv4 address may be one of IPv6.
pub proof fn v4_texts_are_read(s: Seq<char>, a: nat, b: nat, c: nat, d: nat)
    ensures
        ({
            let p = split_on(s, '.');
            &&& p.len() != 4 ==> v4_of(s) is None
            &&& p.len() == 4 && octet_of(p[0]) == Some(a) && octet_of(p[1]) == Some(b) && octet_of(
                p[2],
            ) == Some(c) && octet_of(p[3]) == Some(d) ==> (v4_of(s) matches Some(v) && v == a
                * 0x100_0000 + b * 0x1_0000 + c * 256 + d)
            &&& p.len() == 4 && (octet_of(p[0]) is None || octet_of(p[1]) is None || octet_of(
                p[2],
            ) is None || octet_of(p[3]) is None) ==> v4_of(s) is None
        }),
        v4_of(s) matches Some(v) ==> ip_of(s) == Some(IpAddr::V4(v)),
        v4_of(s) is None ==> (ip_of(s) is Some <==> v6_groups_of(s) is Some),
{
    let p = split_on(s, '.');
    if p.len() == 4 {
        parts_of_addresses(p[0]);
        parts_of_addresses(p[1]);
        parts_of_addresses(p[2]);
        parts_of_addresses(p[3]);
    }
}

/// The groups of a text are those of its parts; the last part may be an IPv4 address, which makes
/// two, where one may stand there.
pub proof fn groups_are_read(parts: Seq<Seq<char>>, p: Seq<char>, v: u32, v4_end: bool)
    ensures
        groups_of(Seq::empty(), v4_end) == Some(Seq::<nat>::empty()),
        groups_of(parts, false) is None ==> groups_of(parts.push(p), v4_end) is None,
        groups_of(parts, false) matches Some(g) ==> (match group_of(p) {
            Some(n) => groups_of(parts.push(p), v4_end) == Some(g.push(n)),
            None => if v4_end && v4_of(p) == Some(v) {
                groups_of(parts.push(p), v4_end) == Some(
                    g.push((v / 0x1_0000) as nat).push((v % 0x1_0000) as nat),
                )
            } else {
                !v4_end || v4_of(p) is None ==> groups_of(parts.push(p), v4_end) is None
            },
        }),
{
    assert(parts.push(p).drop_last() =~= parts);
}

/// An IPv6 text has eight groups, or fewer on both sides of a double colon that stands for the zeros
/// that are missing.
pub proof fn v6_texts_are_read(s: Seq<char>, i: int)
    ensures
        first_at(s, seq![':', ':'], 0) is None ==> (v6_groups_of(s) matches Some(g) ==> g.len() == 8
            && side_of(s, true) == Some(g)),
        first_at(s, seq![':', ':'], 0) is None ==> (side_of(s, true) matches Some(g) ==> (g.len()
            == 8 ==> v6_groups_of(s) == Some(g))),
        first_at(s, seq![':', ':'], 0) == Some(i) ==> (match (
            side_of(s.take(i), false),
            side_of(s.skip(i + 2), true),
        ) {
            (Some(a), Some(b)) => if a.len() + b.len() <= 7 {
                v6_groups_of(s) matches Some(g) && g.len() == 8 && g.take(a.len() as int) == a
                    && g.skip(8 - b.len()) == b && forall|j: int|
                    a.len() <= j < 8 - b.len() ==> #[trigger] g[j] == 0
            } else {
                v6_groups_of(s) is None
            },
            _ => v6_groups_of(s) is None,
        }),
        side_of(Seq::empty(), true) == Some(Seq::<nat>::empty()),
        s.len() > 0 ==> side_of(s, true) == groups_of(split_on(s, ':'), true) && side_of(s, false)
            == groups_of(split_on(s, ':'), false),
{
    if first_at(s, seq![':', ':'], 0) == Some(i) {
        match (side_of(s.take(i), false), side_of(s.skip(i + 2), true)) {
            (Some(a), Some(b)) => {
                if a.len() + b.len() <= 7 {
                    let g = v6_groups_of(s)->Some_0;
                    assert(g.take(a.len() as int) =~= a);
                    assert(g.skip(8 - b.len()) =~= b);
                }
            },
            _ => {},
        }
    }
}

/// Groups are worth what their numbers are, each 65536 times as much as the next.
pub proof fn groups_count(groups: Seq<nat>, g: nat)
    ensures
        groups_value(Seq::empty()) == 0,
        groups_value(groups.push(g)) == groups_value(groups) * 65536 + g,
{
    assert(groups.push(g).drop_last() =~= groups);
}

/// A target is written as its host or address, a colon and its port; an IPv6 address stands in
/// brackets. A host is written alone, and its port is told apart.
pub proof fn targets_are_written(target: Target, t: Seq<char>, u: Seq<char>)
    ensures
        target matches Target::Domain(host, port) ==> (is_target_text(target, t) <==> t == host@
            + seq![':'] + dec_text(port as nat)) && (is_target_host(target, t) <==> t == host@)
            && target_port(target) == port && target_text(target) == TargetText::Domain(
            host@,
            port,
        ),
        target matches Target::Socket(addr) ==> (is_target_host(target, t) <==> is_ip_text(
            addr.ip,
            t,
        )) && target_port(target) == addr.port && target_text(target) == TargetText::Socket(addr),
        target matches Target::Socket(addr) ==> (addr.ip matches IpAddr::V4(v) ==> (is_target_text(
            target,
            t,
        ) <==> t == v4_text(v) + seq![':'] + dec_text(addr.port as nat)) && (is_ip_text(addr.ip, t)
            <==> t == v4_text(v))),
        target matches Target::Socket(addr) ==> (addr.ip matches IpAddr::V6(v) ==> (is_v6_text(v, u)
            ==> is_target_text(
            target,
            seq!['['] + u + seq![']'] + seq![':'] + dec_text(addr.port as nat),
        )) && (is_ip_text(addr.ip, t) <==> is_v6_text(v, t))),
{
    match target {
        Target::Domain(host, port) => {
            assert(host@.push(':') + dec_text(port as nat) =~= host@ + seq![':'] + dec_text(
                port as nat,
            ));
        },
        Target::Socket(addr) => {
            let digits = dec_text(addr.port as nat);
            match addr.ip {
                IpAddr::V4(v) => {
                    assert(v4_text(v).push(':') + digits =~= v4_text(v) + seq![':'] + digits);
                },
                IpAddr::V6(v) => {
                    let w = seq!['['] + u + seq![']'] + seq![':'] + digits;
                    assert(w =~= seq!['['] + u + seq![']', ':'] + digits);
                    if is_v6_text(v, u) {
                        assert(is_socket_text(addr, w));
                    }
                },
            }
        },
    }
}

/// The addresses that hold an IPv4 address are those with 0xffff before its four bytes.
pub proof fn mapped_addresses(v: u32, w: u128)
    ensures
        v4_mapped((0xffff_0000_0000 + v) as u128),
        v4_mapped(w) ==> 0xffff_0000_0000 <= w && w <= 0xffff_ffff_ffff,
        is_v6_text(
            (0xffff_0000_0000 + v) as u128,
            seq![':', ':', 'f', 'f', 'f', 'f', ':'] + v4_text(v),
        ),
{
    let m = (0xffff_0000_0000 + v) as u128;
    assert(m / 0x1_0000_0000 == 0xffff);
    assert(m % 0x1_0000_0000 == v);
}

/// An address can be read back from its bytes unless it is a name of more than 255 bytes.
pub proof fn long_names_are_not_read(target: Target)
    ensures
        target is Socket ==> readable_addr(target),
        target matches Target::Domain(host, _) ==> (readable_addr(target) <==> encode_utf8(
            host@,
        ).len() < 256),
{
}

/// Each address is tried at the port, in the order that the strategy gives, and in the order in
/// which they were found where there is none.
pub proof fn addresses_are_tried(ips: Seq<IpAddr>, port: u16, i: int)
    ensures
        chosen_ips(ips, None) == ips,
        with_port(ips, port).len() == ips.len(),
        0 <= i < ips.len() ==> with_port(ips, port)[i].ip == ips[i] && with_port(ips, port)[i].port
            == port,
{
}

/// The address that is refused is the first that is local.
pub proof fn first_local_is_found(
    candidates: Seq<SocketAddr>,
    ranges: Seq<(IpAddr, u8)>,
    exempt: bool,
    i: int,
)
    requires
        0 <= i < candidates.len(),
        local_in(candidates[i].ip, ranges, exempt),
        forall|j: int| 0 <= j < i ==> !local_in((#[trigger] candidates[j]).ip, ranges, exempt),
    ensures
        first_local(candidates, ranges, exempt) == Some(candidates[i].ip),
    decreases i,
{
    if i > 0 {
        assert(!local_in(candidates[0].ip, ranges, exempt));
        let rest = candidates.skip(1);
        assert(rest[i - 1] == candidates[i]);
        assert forall|j: int| 0 <= j < i - 1 implies !local_in(
            (#[trigger] rest[j]).ip,
            ranges,
            exempt,
        ) by {
            assert(rest[j] == candidates[j + 1]);
        }
        first_local_is_found(rest, ranges, exempt, i - 1);
    }
}

/// A target goes where the first entry for it says, and nowhere where there is none.
pub proof fn first_route_counts(known: Seq<(Target, SocketAddr)>, target: TargetText, i: int)
    ensures
        0 <= i < known.len() && target_text(known[i].0) == target && (forall|j: int|
            0 <= j < i ==> target_text((#[trigger] known[j]).0) != target) ==> route_of(
            known,
            target,
        ) == Some(known[i].1),
        (forall|j: int| 0 <= j < known.len() ==> target_text((#[trigger] known[j]).0) != target)
            ==> route_of(known, target) is None,
    decreases known.len(),
{
    if known.len() > 0 {
        let rest = known.skip(1);
        first_route_counts(rest, target, i - 1);
        if 0 < i < known.len() && (forall|j: int|
            0 <= j < i ==> target_text((#[trigger] known[j]).0) != target) {
            assert(target_text(known[0].0) != target);
            assert(rest[i - 1] == known[i]);
            assert forall|j: int| 0 <= j < i - 1 implies target_text((#[trigger] rest[j]).0)
                != target by {
                assert(rest[j] == known[j + 1]);
            }
        }
        if forall|j: int| 0 <= j < known.len() ==> target_text((#[trigger] known[j]).0) != target {
            assert(target_text(known[0].0) != target);
            assert forall|j: int| 0 <= j < rest.len() implies target_text((#[trigger] rest[j]).0)
                != target by {
                assert(rest[j] == known[j + 1]);
            }
        }
    }
}

/// The addresses of ShadowQUIC: the bytes of the address or of the name, with the port.
pub proof fn shadowquic_addresses(a: SocksAddr, socket: SocketAddr, host: Seq<char>, port: u16)
    ensures
        a.is_socket(socket) ==> a.port == socket.port && (socket.ip matches IpAddr::V4(v) ==> (
        a.addr matches AddrOrDomain::V4(b) && b@ == four(v as nat))) && (
        socket.ip matches IpAddr::V6(v) ==> (a.addr matches AddrOrDomain::V6(b) && b@ == be_bytes(
            v as nat,
            16,
        ))),
        a.is_domain(host, port) ==> a.port == port && (a.addr matches AddrOrDomain::Domain(b) && b@
            == encode_utf8(host)),
{
    if let IpAddr::V4(v) = socket.ip {
        network_order(v as nat);
    }
}

/// The congestion controls by name; any other name is BBR.
pub proof fn controls_by_name(name: Seq<char>, bandwidth: u64)
    ensures
        name == "cubic"@ <==> control_of(name, bandwidth) is Cubic,
        name == "new-reno"@ <==> control_of(name, bandwidth) is NewReno,
        name == "brutal"@ <==> control_of(name, bandwidth) is Brutal,
        name == "brutal"@ ==> control_of(name, bandwidth) == CongestionControl::Brutal(bandwidth),
        name != "cubic"@ && name != "new-reno"@ && name != "brutal"@ ==> control_of(
            name,
            bandwidth,
        ) is Bbr,
{
    reveal_strlit("cubic");
    reveal_strlit("new-reno");
    reveal_strlit("brutal");
    assert("cubic"@.len() == 5 && "new-reno"@.len() == 8 && "brutal"@.len() == 6);
}

/// A datagram of a session starts with the number of the session, and has at least eight bytes.
pub proof fn sessions_by_their_first_bytes(d: Seq<u8>)
    ensures
        d.len() < 8 ==> session_of(d) is None,
        d.len() >= 8 ==> (session_of(d) matches Some(n) && n == d[0] * 0x100_0000 + d[1] * 0x1_0000
            + d[2] * 256 + d[3]),
{
    if d.len() >= 8 {
        network_value(d.subrange(0, 4));
    }
}

/// What is counted adds up, and wraps round where it no longer fits.
pub proof fn counters_add_up(counter: i64, n: u32)
    ensures
        counter + n <= i64::MAX ==> counted(counter, n as nat) == counter + n,
        counter + n > i64::MAX ==> counted(counter, n as nat) == counter + n
            - 0x1_0000_0000_0000_0000,
{
}

/// The limits that all outbounds share.
pub proof fn shared_limits()
    ensures
        LOOKUP_TIMEOUT_SECS == 5,
        TCP_KEEPALIVE_IDLE_SECS == 60,
        TCP_KEEPALIVE_INTERVAL_SECS == 15,
        RELAY_BUF_SIZE == 64 * 1024,
        ANDROID_VPN_PROTECT_MARK == 0x20000,
        crate::direct::DEFAULT_TCP_CONNECT_TIMEOUT_MS == 5 * 1000,
        crate::direct::DEFAULT_FALLBACK_DELAY_MS == 250,
        crate::tailscale::FIRST_LOCAL_PORT == 49152,
        crate::tailscale::UDP_IDLE_TIMEOUT_SECS == 5,
        crate::shadowquic::UDP_IDLE_TIMEOUT_SECS == 10,
{
}

} // verus!
