//! The interfaces of the host, the addresses behind them, and the name servers that they bring.

use crate::common::interface_finder::{
    counts, default_route, fits, in_subnet, named_entries, names_of, ones, prefix_of, usable,
    Interface, ListedAddr,
};
use crate::common::local_ranges::{local_in, LocalRanges, REFRESH_TTL};
use crate::common::physical::{
    asks, dns_of, known, loops_back, serves, source_for, windows_options, with_servers, BindOption,
    DnsAdapter, PhysicalInterface,
};
use crate::laws::words::parts_are_found;
use crate::net::IpAddr;
use crate::text::{first_at, parsed_hex32};
use crate::words::{behind_line, first_line, words};
use vstd::arithmetic::power2::pow2;
use vstd::prelude::*;

verus! {

/// The bits that are set are counted one by one.
pub proof fn bits_are_counted(n: nat)
    ensures
        ones(0) == 0,
        ones(2 * n) == ones(n),
        ones(2 * n + 1) == ones(n) + 1,
{
    assert((2 * n) / 2 == n && (2 * n) % 2 == 0);
    assert((2 * n + 1) / 2 == n && (2 * n + 1) % 2 == 1);
}

/// The length of a network is the number of bits of its mask; without a mask it is one address.
pub proof fn masks_give_lengths(ip: IpAddr, m: u32, w: u128)
    ensures
        prefix_of(ip, Some(IpAddr::V4(m))) == ones(m as nat),
        prefix_of(ip, Some(IpAddr::V6(w))) == ones(w as nat),
        ip is V4 ==> prefix_of(ip, None) == 32,
        ip is V6 ==> prefix_of(ip, None) == 128,
{
}

/// An address is in a network where it agrees with it in its leading bits, and the family is the
/// same. A length of zero takes all of the family, one of all bits or more the address alone.
pub proof fn networks_by_leading_bits(b: u32, t: u32, c: u128, u: u128, len: u8)
    ensures
        in_subnet(IpAddr::V4(b), 0, IpAddr::V4(t)),
        in_subnet(IpAddr::V6(c), 0, IpAddr::V6(u)),
        0 < len && len < 32 ==> (in_subnet(IpAddr::V4(b), len, IpAddr::V4(t)) <==> b as nat / pow2(
            (32 - len) as nat,
        ) == t as nat / pow2((32 - len) as nat)),
        0 < len && len < 128 ==> (in_subnet(IpAddr::V6(c), len, IpAddr::V6(u)) <==> c as nat / pow2(
            (128 - len) as nat,
        ) == u as nat / pow2((128 - len) as nat)),
        len >= 32 ==> (in_subnet(IpAddr::V4(b), len, IpAddr::V4(t)) <==> b == t),
        len >= 128 ==> (in_subnet(IpAddr::V6(c), len, IpAddr::V6(u)) <==> c == u),
        !in_subnet(IpAddr::V4(b), len, IpAddr::V6(u)),
        !in_subnet(IpAddr::V6(c), len, IpAddr::V4(t)),
{
}

/// An interface fits an address that is in one of its networks and is none of its own.
pub proof fn interfaces_fit(iface: Interface, target: IpAddr, i: int)
    ensures
        fits(iface, target) ==> exists|j: int|
            0 <= j < iface.addrs@.len() && in_subnet(
                (#[trigger] iface.addrs@[j]).0,
                iface.addrs@[j].1,
                target,
            ),
        fits(iface, target) && 0 <= i < iface.addrs@.len() ==> iface.addrs@[i].0 != target,
        0 <= i < iface.addrs@.len() && in_subnet(iface.addrs@[i].0, iface.addrs@[i].1, target) && (
        forall|j: int| 0 <= j < iface.addrs@.len() ==> (#[trigger] iface.addrs@[j]).0 != target)
            ==> fits(iface, target),
{
}

/// Addresses count where their interface is up and leads out; each name is listed once, in the order
/// in which it first counts.
pub proof fn listed_addresses(listed: Seq<ListedAddr>, a: ListedAddr, name: Seq<char>)
    ensures
        counts(a) <==> a.up && !a.loopback,
        usable(Seq::empty()).len() == 0,
        usable(listed.push(a)) == if a.up && !a.loopback {
            usable(listed).push((a.ip, prefix_of(a.ip, a.netmask)))
        } else {
            usable(listed)
        },
        names_of(Seq::empty()).len() == 0,
        names_of(listed.push(a)) == if a.up && !a.loopback && !names_of(listed).contains(a.name@) {
            names_of(listed).push(a.name@)
        } else {
            names_of(listed)
        },
        named_entries(Seq::empty(), name).len() == 0,
        named_entries(listed.push(a), name) == if a.name@ == name {
            named_entries(listed, name).push(a)
        } else {
            named_entries(listed, name)
        },
{
    assert(listed.push(a).drop_last() =~= listed);
    reveal(Seq::filter);
}

/// The default route is on the first line, of at least eight fields, whose destination and mask are
/// both zero; it is named by the first field. A line whose numbers cannot be read ends the search.
pub proof fn default_route_is_found(line: Seq<char>, rest: Seq<char>)
    requires
        forall|i: int| 0 <= i < line.len() ==> line[i] != '\n',
    ensures
        default_route(Seq::empty()) is None,
        default_route(line + seq!['\n'] + rest) == ({
            let f = words(line);
            if f.len() < 8 {
                default_route(rest)
            } else if parsed_hex32(f[1]) is None || parsed_hex32(f[7]) is None {
                None
            } else if parsed_hex32(f[1]) == Some(0nat) && parsed_hex32(f[7]) == Some(0nat) {
                Some(f[0])
            } else {
                default_route(rest)
            }
        }),
{
    let nl = seq!['\n'];
    let s = line + nl + rest;
    let n = line.len() as int;
    parts_are_found(s, nl, 0);
    assert(s.subrange(n, n + 1) =~= nl);
    match first_at(s, nl, 0) {
        None => {
            assert(false);
        },
        Some(i) => {
            if i < n {
                assert(s.subrange(i, i + 1)[0] == '\n');
                assert(line[i] == '\n');
            }
            assert(i <= n);
        },
    }
    assert(first_line(s) =~= line);
    assert(behind_line(s) =~= rest);
}

/// An address is local where it is in one of the ranges; with the exemption, a range does not count
/// for its own address. Ranges hold for ten seconds.
pub proof fn local_addresses(
    addr: IpAddr,
    ranges: Seq<(IpAddr, u8)>,
    base: IpAddr,
    len: u8,
    exempt: bool,
    table: LocalRanges,
    now: nat,
)
    ensures
        !local_in(addr, Seq::empty(), exempt),
        local_in(addr, ranges.push((base, len)), exempt) <==> local_in(addr, ranges, exempt) || (
        in_subnet(base, len, addr) && !(exempt && base == addr)),
        REFRESH_TTL == 10,
        table.old_at(now) <==> now > table.last_refresh + 10,
{
    let all = ranges.push((base, len));
    if local_in(addr, ranges, exempt) {
        let i = choose|i: int|
            0 <= i < ranges.len() && !(exempt && ranges[i].0 == addr) && in_subnet(
                (#[trigger] ranges[i]).0,
                ranges[i].1,
                addr,
            );
        assert(all[i] == ranges[i]);
    }
    if in_subnet(base, len, addr) && !(exempt && base == addr) {
        assert(all[ranges.len() as int] == (base, len));
    }
    if local_in(addr, all, exempt) {
        let i = choose|i: int|
            0 <= i < all.len() && !(exempt && all[i].0 == addr) && in_subnet(
                (#[trigger] all[i]).0,
                all[i].1,
                addr,
            );
        if i < ranges.len() {
            assert(ranges[i] == all[i]);
        }
    }
}

/// What is bound to for a peer: the address of the peer's family, for an IPv6 peer the IPv4 address
/// where there is no other. An index of zero is none.
pub proof fn sources_by_family(state: PhysicalInterface, a: u32, b: u128, idx: u32)
    ensures
        known(0) is None,
        idx != 0 ==> known(idx) == Some(idx),
        state.src_ip_v4 matches Some(ip) ==> source_for(state, IpAddr::V4(a)) == Some(
            IpAddr::V4(ip),
        ),
        state.src_ip_v4 is None ==> source_for(state, IpAddr::V4(a)) is None,
        state.src_ip_v6 matches Some(ip) ==> source_for(state, IpAddr::V6(b)) == Some(
            IpAddr::V6(ip),
        ),
        state.src_ip_v6 is None ==> source_for(state, IpAddr::V6(b)) == source_for(
            state,
            IpAddr::V4(a),
        ),
{
}

/// The loopback addresses: all that start with 127, and the one of IPv6.
pub proof fn loopback_addresses(v: u32, w: u128)
    ensures
        loops_back(IpAddr::V4(v)) <==> 0x7f00_0000 <= v && v <= 0x7fff_ffff,
        loops_back(IpAddr::V6(w)) <==> w == 1,
{
}

/// The options for a socket: those of the peer's family, unicast before multicast, and for an IPv6
/// peer the IPv4 index behind them; none for a loopback address and none for an index of zero.
pub proof fn options_by_family(state: PhysicalInterface, v: u32, w: u128)
    ensures
        ({
            let i4 = state.if_index_v4;
            let i6 = state.if_index_v6;
            let four = windows_options(state, IpAddr::V4(v));
            let six = windows_options(state, IpAddr::V6(w));
            &&& 0x7f00_0000 <= v && v <= 0x7fff_ffff ==> four.len() == 0
            &&& w == 1 ==> six.len() == 0
            &&& v < 0x7f00_0000 && i4 != 0 ==> four == seq![
                BindOption::UnicastV4(i4),
                BindOption::MulticastV4(i4),
            ]
            &&& i4 == 0 ==> four.len() == 0
            &&& w != 1 && i4 != 0 && i6 != 0 ==> six == seq![
                BindOption::UnicastV6(i6),
                BindOption::MulticastV6(i6),
                BindOption::UnicastV4(i4),
            ]
            &&& w != 1 && i4 == 0 && i6 != 0 ==> six == seq![
                BindOption::UnicastV6(i6),
                BindOption::MulticastV6(i6),
            ]
            &&& w != 1 && i4 != 0 && i6 == 0 ==> six == seq![BindOption::UnicastV4(i4)]
            &&& i4 == 0 && i6 == 0 ==> six.len() == 0
        }),
{
}

/// Name servers come from adapters that are up and lead out and are, where an index is known, the
/// physical one. A server is taken once, in the order of the list, unless it is no address or one of
/// this host.
pub proof fn name_servers(
    state: PhysicalInterface,
    own: Seq<(IpAddr, u8)>,
    adapters: Seq<DnsAdapter>,
    a: DnsAdapter,
    list: Seq<IpAddr>,
    more: Seq<IpAddr>,
    ip: IpAddr,
)
    ensures
        asks(state, a) <==> a.up && !a.loopback && (state.if_index_v4 == 0 && state.if_index_v6 == 0
            || (a.if_index != 0 && (a.if_index == state.if_index_v4 || a.if_index
            == state.if_index_v6))),
        serves(own, ip) <==> ip != IpAddr::V4(0) && ip != IpAddr::V6(0) && forall|i: int|
            0 <= i < own.len() ==> (#[trigger] own[i]).0 != ip,
        with_servers(own, list, Seq::empty()) == list,
        with_servers(own, list, more.push(ip)) == if serves(own, ip) && !with_servers(
            own,
            list,
            more,
        ).contains(ip) {
            with_servers(own, list, more).push(ip)
        } else {
            with_servers(own, list, more)
        },
        dns_of(state, own, Seq::empty()).len() == 0,
        dns_of(state, own, adapters.push(a)) == if asks(state, a) {
            with_servers(own, dns_of(state, own, adapters), a.servers@)
        } else {
            dns_of(state, own, adapters)
        },
{
    assert(more.push(ip).drop_last() =~= more);
    assert(adapters.push(a).drop_last() =~= adapters);
}

} // verus!
