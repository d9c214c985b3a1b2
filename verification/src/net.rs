//! Addresses and connection targets as plain values.

use crate::text::{dec_text, hex_text, push_dec, push_hex, text_eq};
use crate::wire::{be_bytes, be_bytes_concat, be_bytes_mod, byte_range, put_u32, put_u64};
use vstd::prelude::*;

verus! {

/// An IP address, held as the number that its octets spell in network order.
#[derive(Clone, Copy, Debug, PartialEq, Eq, Structural)]
pub enum IpAddr {
    V4(u32),
    V6(u128),
}

/// An IP address and a port.
#[derive(Clone, Copy, Debug, PartialEq, Eq, Structural)]
pub struct SocketAddr {
    pub ip: IpAddr,
    pub port: u16,
}

/// Where a connection or datagram is headed.
#[derive(Clone, Debug, PartialEq, Eq)]
pub enum Target {
    Domain(String, u16),
    Socket(SocketAddr),
}

/// A target with its name as a text.
pub enum TargetText {
    Domain(Seq<char>, u16),
    Socket(SocketAddr),
}

/// A target with its name as a text.
pub open spec fn target_text(target: Target) -> TargetText {
    match target {
        Target::Domain(host, port) => TargetText::Domain(host@, port),
        Target::Socket(addr) => TargetText::Socket(addr),
    }
}

/// Whether two targets are the same.
pub fn same_target(a: &Target, b: &Target) -> (same: bool)
    ensures
        same == (target_text(*a) == target_text(*b)),
{
    match (a, b) {
        (Target::Domain(h, p), Target::Domain(g, q)) => *p == *q && text_eq(h, g),
        (Target::Socket(x), Target::Socket(y)) => *x == *y,
        _ => false,
    }
}

/// The address `a.b.c.d`.
pub open spec fn v4_addr(a: u8, b: u8, c: u8, d: u8) -> IpAddr {
    IpAddr::V4((a * 16777216 + b * 65536 + c * 256 + d) as u32)
}

/// The dotted-quad text of an IPv4 address.
pub open spec fn v4_text(v: u32) -> Seq<char> {
    dec_text((v / 16777216) as nat).push('.') + dec_text((v / 65536 % 256) as nat).push('.')
        + dec_text((v / 256 % 256) as nat).push('.') + dec_text((v % 256) as nat)
}

/// The `i`-th 16-bit group of an IPv6 address, counted from the left.
pub open spec fn v6_group(v: u128, i: int) -> nat
    recommends
        0 <= i < 8,
{
    if i == 0 {
        (v / 0x1_0000_0000_0000_0000_0000_0000_0000) as nat
    } else if i == 1 {
        (v / 0x1_0000_0000_0000_0000_0000_0000 % 65536) as nat
    } else if i == 2 {
        (v / 0x1_0000_0000_0000_0000_0000 % 65536) as nat
    } else if i == 3 {
        (v / 0x1_0000_0000_0000_0000 % 65536) as nat
    } else if i == 4 {
        (v / 0x1_0000_0000_0000 % 65536) as nat
    } else if i == 5 {
        (v / 0x1_0000_0000 % 65536) as nat
    } else if i == 6 {
        (v / 0x1_0000 % 65536) as nat
    } else {
        (v % 65536) as nat
    }
}

/// The eight groups of an IPv6 address.
pub open spec fn v6_groups(v: u128) -> Seq<nat> {
    Seq::new(8, |i: int| v6_group(v, i))
}

/// How many groups from `i` on are zero in a row.
pub open spec fn zero_run(g: Seq<nat>, i: int) -> nat
    decreases g.len() - i,
{
    if 0 <= i < g.len() && g[i] == 0 {
        zero_run(g, i + 1) + 1
    } else {
        0
    }
}

/// `s` is where the first of the longest runs of zero groups starts.
pub open spec fn longest_run_at(g: Seq<nat>, s: int) -> bool {
    &&& 0 <= s < g.len()
    &&& forall|j: int| 0 <= j < s ==> #[trigger] zero_run(g, j) < zero_run(g, s)
    &&& forall|j: int| s <= j < g.len() ==> #[trigger] zero_run(g, j) <= zero_run(g, s)
}

/// The groups `from..to` in hexadecimal, separated by colons.
pub open spec fn groups_text(g: Seq<nat>, from: int, to: int) -> Seq<char>
    decreases to - from,
{
    if from >= to {
        Seq::empty()
    } else if from + 1 == to {
        hex_text(g[from])
    } else {
        groups_text(g, from, to - 1).push(':') + hex_text(g[to - 1])
    }
}

/// Whether the address is an IPv4 address mapped into IPv6 (`::ffff:a.b.c.d`).
pub open spec fn v4_mapped(v: u128) -> bool {
    v / 0x1_0000_0000 == 0xffff
}

/// The groups as text, with the run that starts at `s` shortened to `::` when it
/// spans at least two groups.
pub open spec fn compressed_text(g: Seq<nat>, s: int) -> Seq<char> {
    if zero_run(g, s) > 1 {
        groups_text(g, 0, s).push(':').push(':') + groups_text(g, s + zero_run(g, s), 8)
    } else {
        groups_text(g, 0, 8)
    }
}

/// `t` is the canonical text of the IPv6 address `v` (RFC 5952).
pub open spec fn is_v6_text(v: u128, t: Seq<char>) -> bool {
    if v4_mapped(v) {
        t == seq![':', ':', 'f', 'f', 'f', 'f', ':'] + v4_text((v % 0x1_0000_0000) as u32)
    } else {
        exists|s: int| #[trigger]
            longest_run_at(v6_groups(v), s) && t == compressed_text(v6_groups(v), s)
    }
}

/// `t` is the text of `ip`.
pub open spec fn is_ip_text(ip: IpAddr, t: Seq<char>) -> bool {
    match ip {
        IpAddr::V4(v) => t == v4_text(v),
        IpAddr::V6(v) => is_v6_text(v, t),
    }
}

/// `t` is the text of `addr`: the IP address, in brackets when it is IPv6, a colon
/// and the port.
pub open spec fn is_socket_text(addr: SocketAddr, t: Seq<char>) -> bool {
    match addr.ip {
        IpAddr::V4(v) => t == v4_text(v).push(':') + dec_text(addr.port as nat),
        IpAddr::V6(v) => exists|u: Seq<char>| #[trigger]
            is_v6_text(v, u) && t == seq!['['] + u + seq![']', ':'] + dec_text(addr.port as nat),
    }
}

/// The octets of `ip` in network order.
pub open spec fn ip_octets(ip: IpAddr) -> Seq<u8> {
    match ip {
        IpAddr::V4(v) => be_bytes(v as nat, 4),
        IpAddr::V6(v) => be_bytes(v as nat, 16),
    }
}

/// `t` is the host part of the target as text.
pub open spec fn is_target_host(target: Target, t: Seq<char>) -> bool {
    match target {
        Target::Domain(host, _) => t == host@,
        Target::Socket(addr) => is_ip_text(addr.ip, t),
    }
}

/// The port of the target.
pub open spec fn target_port(target: Target) -> u16 {
    match target {
        Target::Domain(_, port) => port,
        Target::Socket(addr) => addr.port,
    }
}

/// `t` is the `host:port` form of the target.
pub open spec fn is_target_text(target: Target, t: Seq<char>) -> bool {
    match target {
        Target::Domain(host, port) => t == host@.push(':') + dec_text(port as nat),
        Target::Socket(addr) => is_socket_text(addr, t),
    }
}

/// The canonical text of an IPv6 address is unique.
pub proof fn v6_text_unique(v: u128, a: Seq<char>, b: Seq<char>)
    requires
        is_v6_text(v, a),
        is_v6_text(v, b),
    ensures
        a == b,
{
    if !v4_mapped(v) {
        let g = v6_groups(v);
        let s = choose|s: int| #[trigger] longest_run_at(g, s) && a == compressed_text(g, s);
        let r = choose|s: int| #[trigger] longest_run_at(g, s) && b == compressed_text(g, s);
        assert(zero_run(g, s) <= zero_run(g, r));
        assert(zero_run(g, r) <= zero_run(g, s));
    }
}

/// The text of a target is unique.
pub proof fn target_text_unique(target: Target, a: Seq<char>, b: Seq<char>)
    requires
        is_target_text(target, a),
        is_target_text(target, b),
    ensures
        a == b,
{
    if let Target::Socket(addr) = target {
        if let IpAddr::V6(v) = addr.ip {
            let x = choose|u: Seq<char>| #[trigger]
                is_v6_text(v, u) && a == seq!['['] + u + seq![']', ':'] + dec_text(
                    addr.port as nat,
                );
            let y = choose|u: Seq<char>| #[trigger]
                is_v6_text(v, u) && b == seq!['['] + u + seq![']', ':'] + dec_text(
                    addr.port as nat,
                );
            v6_text_unique(v, x, y);
        }
    }
}

/// Appends the sixteen octets of `v` in network order.
pub fn put_u128(out: &mut Vec<u8>, v: u128)
    ensures
        final(out)@ == old(out)@ + be_bytes(v as nat, 16),
{
    let ghost start = out@;
    let high: u64 = (v / 0x1_0000_0000_0000_0000) as u64;
    let low: u64 = (v % 0x1_0000_0000_0000_0000) as u64;
    put_u64(out, high);
    put_u64(out, low);
    proof {
        be_bytes_concat(v as nat, 8, 8);
        assert(byte_range(8) == 0x1_0000_0000_0000_0000) by {
            reveal_with_fuel(byte_range, 9);
        }
        be_bytes_mod(v as nat, 8);
        assert(out@ =~= start + (be_bytes(high as nat, 8) + be_bytes(low as nat, 8)));
    }
}

fn push_v4(out: &mut String, v: u32)
    ensures
        final(out)@ == old(out)@ + v4_text(v),
{
    push_dec(out, (v / 16777216) as u64);
    out.push('.');
    push_dec(out, (v / 65536 % 256) as u64);
    out.push('.');
    push_dec(out, (v / 256 % 256) as u64);
    out.push('.');
    push_dec(out, (v % 256) as u64);
    assert(out@ =~= old(out)@ + v4_text(v));
}

fn v6_group_list(v: u128) -> (groups: Vec<u16>)
    ensures
        groups@.len() == 8,
        groups@.map_values(|x: u16| x as nat) == v6_groups(v),
{
    let mut groups: Vec<u16> = Vec::new();
    groups.push((v / 0x1_0000_0000_0000_0000_0000_0000_0000) as u16);
    groups.push((v / 0x1_0000_0000_0000_0000_0000_0000 % 65536) as u16);
    groups.push((v / 0x1_0000_0000_0000_0000_0000 % 65536) as u16);
    groups.push((v / 0x1_0000_0000_0000_0000 % 65536) as u16);
    groups.push((v / 0x1_0000_0000_0000 % 65536) as u16);
    groups.push((v / 0x1_0000_0000 % 65536) as u16);
    groups.push((v / 0x1_0000 % 65536) as u16);
    groups.push((v % 65536) as u16);
    assert(groups@.map_values(|x: u16| x as nat) =~= v6_groups(v));
    groups
}

/// The length of the zero run at `i`.
fn run_length(groups: &Vec<u16>, i: usize) -> (n: usize)
    requires
        i <= groups@.len(),
    ensures
        n as nat == zero_run(groups@.map_values(|x: u16| x as nat), i as int),
        i + n <= groups@.len(),
    decreases groups@.len() - i,
{
    if i < groups.len() && groups[i] == 0 {
        run_length(groups, i + 1) + 1
    } else {
        0
    }
}

/// Where the longest zero run starts.
fn longest_run(groups: &Vec<u16>) -> (s: usize)
    requires
        groups@.len() == 8,
    ensures
        longest_run_at(groups@.map_values(|x: u16| x as nat), s as int),
{
    let ghost g = groups@.map_values(|x: u16| x as nat);
    let mut best: usize = 0;
    let mut i: usize = 1;
    while i < 8
        invariant
            groups@.len() == 8,
            g == groups@.map_values(|x: u16| x as nat),
            0 <= best < i <= 8,
            forall|j: int| 0 <= j < best ==> #[trigger] zero_run(g, j) < zero_run(g, best as int),
            forall|j: int| best <= j < i ==> #[trigger] zero_run(g, j) <= zero_run(g, best as int),
        decreases 8 - i,
    {
        let here: usize = run_length(groups, i);
        let there: usize = run_length(groups, best);
        if here > there {
            best = i;
        }
        i += 1;
    }
    best
}

fn push_groups(out: &mut String, groups: &Vec<u16>, from: usize, to: usize)
    requires
        from <= to <= groups@.len(),
    ensures
        final(out)@ == old(out)@ + groups_text(
            groups@.map_values(|x: u16| x as nat),
            from as int,
            to as int,
        ),
    decreases to - from,
{
    if from < to {
        if from + 1 < to {
            push_groups(out, groups, from, to - 1);
            out.push(':');
        }
        push_hex(out, groups[to - 1] as u64);
    }
    assert(out@ =~= old(out)@ + groups_text(
        groups@.map_values(|x: u16| x as nat),
        from as int,
        to as int,
    ));
}

fn push_v6(out: &mut String, v: u128) -> (text: Ghost<Seq<char>>)
    ensures
        final(out)@ == old(out)@ + text@,
        is_v6_text(v, text@),
{
    let ghost start = out@;
    if v / 0x1_0000_0000 == 0xffff {
        out.append("::ffff:");
        proof {
            reveal_strlit("::ffff:");
            assert("::ffff:"@ =~= seq![':', ':', 'f', 'f', 'f', 'f', ':']);
        }
        push_v4(out, (v % 0x1_0000_0000) as u32);
        let ghost t = seq![':', ':', 'f', 'f', 'f', 'f', ':'] + v4_text(
            (v % 0x1_0000_0000) as u32,
        );
        assert(out@ =~= start + t);
        Ghost(t)
    } else {
        let groups: Vec<u16> = v6_group_list(v);
        let s: usize = longest_run(&groups);
        let n: usize = run_length(&groups, s);
        if n > 1 {
            push_groups(out, &groups, 0, s);
            out.push(':');
            out.push(':');
            push_groups(out, &groups, s + n, 8);
        } else {
            push_groups(out, &groups, 0, 8);
        }
        let ghost t = compressed_text(v6_groups(v), s as int);
        assert(out@ =~= start + t);
        Ghost(t)
    }
}

impl IpAddr {
    /// The IPv4 address `a.b.c.d`.
    pub fn v4(a: u8, b: u8, c: u8, d: u8) -> (ip: IpAddr)
        ensures
            ip == v4_addr(a, b, c, d),
    {
        IpAddr::V4(a as u32 * 16777216 + b as u32 * 65536 + c as u32 * 256 + d as u32)
    }

    pub fn is_ipv4(&self) -> (yes: bool)
        ensures
            yes == (self is V4),
    {
        matches!(self, IpAddr::V4(_))
    }

    pub fn is_ipv6(&self) -> (yes: bool)
        ensures
            yes == (self is V6),
    {
        matches!(self, IpAddr::V6(_))
    }

    /// The text of the address.
    pub fn to_text(&self) -> (text: String)
        ensures
            is_ip_text(*self, text@),
    {
        let mut out: String = String::new();
        match *self {
            IpAddr::V4(v) => {
                push_v4(&mut out, v);
                assert(out@ =~= v4_text(v));
            },
            IpAddr::V6(v) => {
                let t = push_v6(&mut out, v);
                assert(out@ =~= t@);
            },
        }
        out
    }
}

/// Appends the octets of `ip` in network order.
pub fn put_ip(out: &mut Vec<u8>, ip: &IpAddr)
    ensures
        final(out)@ == old(out)@ + ip_octets(*ip),
{
    match *ip {
        IpAddr::V4(v) => put_u32(out, v),
        IpAddr::V6(v) => put_u128(out, v),
    }
}

impl SocketAddr {
    pub fn new(ip: IpAddr, port: u16) -> (addr: SocketAddr)
        ensures
            addr == (SocketAddr { ip, port }),
    {
        SocketAddr { ip, port }
    }

    pub fn is_ipv6(&self) -> (yes: bool)
        ensures
            yes == (self.ip is V6),
    {
        self.ip.is_ipv6()
    }

    /// The text of the address, as in `1.2.3.4:80` or `[::1]:80`.
    pub fn to_text(&self) -> (text: String)
        ensures
            is_socket_text(*self, text@),
    {
        let mut out: String = String::new();
        match self.ip {
            IpAddr::V4(v) => {
                push_v4(&mut out, v);
                out.push(':');
                push_dec(&mut out, self.port as u64);
                assert(out@ =~= v4_text(v).push(':') + dec_text(self.port as nat));
            },
            IpAddr::V6(v) => {
                out.push('[');
                let t = push_v6(&mut out, v);
                out.push(']');
                out.push(':');
                push_dec(&mut out, self.port as u64);
                assert(out@ =~= seq!['['] + t@ + seq![']', ':'] + dec_text(self.port as nat));
            },
        }
        out
    }
}

impl Target {
    /// The domain name, or the text of the IP address.
    pub fn host(&self) -> (host: String)
        ensures
            is_target_host(*self, host@),
    {
        match self {
            Target::Domain(host, _) => host.clone(),
            Target::Socket(addr) => addr.ip.to_text(),
        }
    }

    pub fn port(&self) -> (port: u16)
        ensures
            port == target_port(*self),
    {
        match self {
            Target::Domain(_, port) => *port,
            Target::Socket(addr) => addr.port,
        }
    }

    /// The `host:port` form.
    pub fn to_text(&self) -> (text: String)
        ensures
            is_target_text(*self, text@),
    {
        match self {
            Target::Domain(host, port) => {
                let mut out: String = host.clone();
                out.push(':');
                push_dec(&mut out, *port as u64);
                out
            },
            Target::Socket(addr) => addr.to_text(),
        }
    }
}

} // verus!
