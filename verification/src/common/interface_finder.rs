//! Which network interface a connection leaves by, and which addresses are local.

use super::group::has_tag;
use crate::net::IpAddr;
use crate::text::{chars_of, parse_hex32, parsed_hex32, text_eq, text_in, texts};
use crate::words::{behind_line, behind_line_shorter, first_line, line_end, split_words, words};
use vstd::arithmetic::div_mod::lemma_div_denominator;
use vstd::arithmetic::power2::{
    lemma2_to64, lemma_pow2_adds, lemma_pow2_pos, lemma_pow2_unfold, pow2,
};
use vstd::bits::{lemma_u128_shr_is_div, lemma_u32_shr_is_div};
use vstd::prelude::*;

verus! {

/// A network interface with its addresses and the lengths of their prefixes.
#[derive(Clone, Debug)]
pub struct Interface {
    pub name: String,
    pub addrs: Vec<(IpAddr, u8)>,
}

/// An address of an interface as the system lists it.
#[derive(Clone, Debug)]
pub struct ListedAddr {
    pub name: String,
    /// Whether the interface is up.
    pub up: bool,
    pub loopback: bool,
    pub ip: IpAddr,
    pub netmask: Option<IpAddr>,
}

/// How many bits of a number are set.
pub open spec fn ones(n: nat) -> nat
    decreases n,
{
    if n == 0 {
        0
    } else {
        n % 2 + ones(n / 2)
    }
}

/// The length of the prefix that a mask marks, all of the address where there is none.
pub open spec fn prefix_of(ip: IpAddr, netmask: Option<IpAddr>) -> nat {
    match netmask {
        Some(IpAddr::V4(m)) => ones(m as nat),
        Some(IpAddr::V6(m)) => ones(m as nat),
        None => match ip {
            IpAddr::V4(_) => 32,
            IpAddr::V6(_) => 128,
        },
    }
}

/// The prefix of so many bits, seen as a number.
pub open spec fn leading(n: nat, bits: nat, prefix_len: nat) -> nat {
    if prefix_len == 0 {
        0
    } else if prefix_len >= bits {
        n
    } else {
        n / pow2((bits - prefix_len) as nat)
    }
}

/// Whether `target` lies in the subnet of `base`: the leading bits of both agree.
pub open spec fn in_subnet(base: IpAddr, prefix_len: u8, target: IpAddr) -> bool {
    match (base, target) {
        (IpAddr::V4(b), IpAddr::V4(t)) => leading(b as nat, 32, prefix_len as nat) == leading(
            t as nat,
            32,
            prefix_len as nat,
        ),
        (IpAddr::V6(b), IpAddr::V6(t)) => leading(b as nat, 128, prefix_len as nat) == leading(
            t as nat,
            128,
            prefix_len as nat,
        ),
        _ => false,
    }
}

proof fn ones_bound(n: nat, bits: nat)
    requires
        n < pow2(bits),
    ensures
        ones(n) <= bits,
    decreases bits,
{
    lemma2_to64();
    if n > 0 {
        assert(bits > 0);
        lemma_pow2_unfold(bits);
        ones_bound(n / 2, (bits - 1) as nat);
    }
}

fn count_ones(n: u128) -> (c: u8)
    ensures
        c as nat == ones(n as nat),
{
    let mut rest: u128 = n;
    let mut c: u8 = 0;
    proof {
        lemma2_to64();
        lemma_pow2_adds(64, 64);
        assert(pow2(128) == 0x1_0000_0000_0000_0000 * 0x1_0000_0000_0000_0000) by {
            assert(pow2(64) == 0x1_0000_0000_0000_0000);
        }
        ones_bound(n as nat, 128);
    }
    while rest > 0
        invariant
            c + ones(rest as nat) == ones(n as nat),
            ones(n as nat) <= 128,
        decreases rest,
    {
        if rest % 2 == 1 {
            c += 1;
        }
        rest = rest / 2;
    }
    c
}

fn prefix_len(ip: IpAddr, netmask: Option<IpAddr>) -> (len: u8)
    ensures
        len as nat == prefix_of(ip, netmask),
{
    match netmask {
        Some(IpAddr::V4(m)) => count_ones(m as u128),
        Some(IpAddr::V6(m)) => count_ones(m),
        None => match ip {
            IpAddr::V4(_) => 32,
            IpAddr::V6(_) => 128,
        },
    }
}

/// Whether `target` lies in the subnet of `base`.
pub fn ip_in_subnet(base: IpAddr, prefix_len: u8, target: IpAddr) -> (yes: bool)
    ensures
        yes == in_subnet(base, prefix_len, target),
{
    match (base, target) {
        (IpAddr::V4(b), IpAddr::V4(t)) => {
            if prefix_len == 0 {
                return true;
            }
            if prefix_len >= 32 {
                return b == t;
            }
            let shift: u32 = 32 - prefix_len as u32;
            proof {
                lemma_u32_shr_is_div(b, shift);
                lemma_u32_shr_is_div(t, shift);
            }
            (b >> shift) == (t >> shift)
        },
        (IpAddr::V6(b), IpAddr::V6(t)) => {
            if prefix_len == 0 {
                return true;
            }
            if prefix_len >= 128 {
                return b == t;
            }
            let shift: u128 = 128 - prefix_len as u128;
            proof {
                lemma_u128_shr_is_div(b, shift);
                lemma_u128_shr_is_div(t, shift);
            }
            (b >> shift) == (t >> shift)
        },
        _ => false,
    }
}

/// A subnet holds its own base, no address of the other family, and everything that a narrower
/// subnet of the same base holds.
pub proof fn subnets_nest(base: IpAddr, narrow: u8, wide: u8, target: IpAddr)
    requires
        wide <= narrow,
    ensures
        in_subnet(base, narrow, base),
        (base is V4) != (target is V4) ==> !in_subnet(base, narrow, target),
        in_subnet(base, narrow, target) ==> in_subnet(base, wide, target),
{
    match (base, target) {
        (IpAddr::V4(b), IpAddr::V4(t)) => {
            leading_nests(b as nat, t as nat, 32, narrow as nat, wide as nat);
        },
        (IpAddr::V6(b), IpAddr::V6(t)) => {
            leading_nests(b as nat, t as nat, 128, narrow as nat, wide as nat);
        },
        _ => {},
    }
}

proof fn leading_nests(b: nat, t: nat, bits: nat, narrow: nat, wide: nat)
    requires
        wide <= narrow,
    ensures
        leading(b, bits, narrow) == leading(t, bits, narrow) ==> leading(b, bits, wide) == leading(
            t,
            bits,
            wide,
        ),
{
    if 0 < wide && wide < narrow && narrow < bits {
        let low = (bits - narrow) as nat;
        let more = (narrow - wide) as nat;
        lemma_pow2_adds(low, more);
        lemma_pow2_pos(low);
        lemma_pow2_pos(more);
        lemma_div_denominator(
            b as int,
            pow2(low) as int,
            pow2(more) as int,
        );
        lemma_div_denominator(
            t as int,
            pow2(low) as int,
            pow2(more) as int,
        );
    }
}

/// Whether one of the subnets of an interface holds `target`.
pub open spec fn reaches(addrs: Seq<(IpAddr, u8)>, target: IpAddr) -> bool {
    exists|i: int| 0 <= i < addrs.len() && in_subnet((#[trigger] addrs[i]).0, addrs[i].1, target)
}

/// Whether `target` is one of the addresses.
pub open spec fn owns(addrs: Seq<(IpAddr, u8)>, target: IpAddr) -> bool {
    exists|i: int| 0 <= i < addrs.len() && (#[trigger] addrs[i]).0 == target
}

/// Whether one of the subnets of an interface holds `target`.
pub fn addr_in_interface(iface: &Interface, target: IpAddr) -> (yes: bool)
    ensures
        yes == reaches(iface.addrs@, target),
{
    let mut i: usize = 0;
    while i < iface.addrs.len()
        invariant
            i <= iface.addrs@.len(),
            forall|j: int|
                0 <= j < i ==> !in_subnet(
                    (#[trigger] iface.addrs@[j]).0,
                    iface.addrs@[j].1,
                    target,
                ),
        decreases iface.addrs@.len() - i,
    {
        if ip_in_subnet(iface.addrs[i].0, iface.addrs[i].1, target) {
            assert(in_subnet(iface.addrs@[i as int].0, iface.addrs@[i as int].1, target));
            return true;
        }
        i += 1;
    }
    false
}

/// Whether `target` is one of the addresses.
pub fn has_addr(addrs: &[(IpAddr, u8)], target: IpAddr) -> (yes: bool)
    ensures
        yes == owns(addrs@, target),
{
    let mut i: usize = 0;
    while i < addrs.len()
        invariant
            i <= addrs@.len(),
            forall|j: int| 0 <= j < i ==> (#[trigger] addrs@[j]).0 != target,
        decreases addrs@.len() - i,
    {
        if addrs[i].0 == target {
            assert(addrs@[i as int].0 == target);
            return true;
        }
        i += 1;
    }
    false
}

/// Whether an interface is the one for `target`: its subnet holds it, and it is no address of the
/// interface itself.
pub open spec fn fits(iface: Interface, target: IpAddr) -> bool {
    !owns(iface.addrs@, target) && reaches(iface.addrs@, target)
}

/// The first interface whose subnet holds `target`, if it is not an address of the interface
/// itself.
pub fn find_interface_by_addr(target: IpAddr, interfaces: &[Interface]) -> (found: Option<usize>)
    ensures
        match found {
            Some(i) => i < interfaces@.len() && fits(interfaces@[i as int], target) && forall|j: int|
                0 <= j < i ==> !fits(#[trigger] interfaces@[j], target),
            None => forall|j: int|
                0 <= j < interfaces@.len() ==> !fits(#[trigger] interfaces@[j], target),
        },
{
    let mut i: usize = 0;
    while i < interfaces.len()
        invariant
            i <= interfaces@.len(),
            forall|j: int| 0 <= j < i ==> !fits(#[trigger] interfaces@[j], target),
        decreases interfaces@.len() - i,
    {
        if !has_addr(&interfaces[i].addrs, target) && addr_in_interface(&interfaces[i], target) {
            return Some(i);
        }
        i += 1;
    }
    None
}

/// Whether the system's entry counts: the interface is up and leads out.
pub open spec fn counts(a: ListedAddr) -> bool {
    a.up && !a.loopback
}

/// The addresses with the lengths of their prefixes, of the entries that count.
pub open spec fn usable(listed: Seq<ListedAddr>) -> Seq<(IpAddr, nat)>
    decreases listed.len(),
{
    if listed.len() == 0 {
        Seq::empty()
    } else if counts(listed.last()) {
        usable(listed.drop_last()).push(
            (listed.last().ip, prefix_of(listed.last().ip, listed.last().netmask)),
        )
    } else {
        usable(listed.drop_last())
    }
}

/// Addresses with prefix lengths as plain numbers.
pub open spec fn plain(addrs: Seq<(IpAddr, u8)>) -> Seq<(IpAddr, nat)> {
    addrs.map_values(|a: (IpAddr, u8)| (a.0, a.1 as nat))
}

/// Collects the addresses of all interfaces that count.
pub fn collect(listed: &[ListedAddr]) -> (out: Vec<(IpAddr, u8)>)
    ensures
        plain(out@) == usable(listed@),
{
    let mut out: Vec<(IpAddr, u8)> = Vec::new();
    let mut i: usize = 0;
    assert(plain(out@) =~= Seq::empty());
    while i < listed.len()
        invariant
            i <= listed@.len(),
            plain(out@) == usable(listed@.take(i as int)),
        decreases listed@.len() - i,
    {
        assert(listed@.take(i + 1).drop_last() =~= listed@.take(i as int));
        if listed[i].up && !listed[i].loopback {
            let ghost before = out@;
            let len: u8 = prefix_len(listed[i].ip, listed[i].netmask);
            out.push((listed[i].ip, len));
            assert(plain(out@) =~= plain(before).push((listed@[i as int].ip, len as nat)));
        }
        i += 1;
    }
    assert(listed@.take(i as int) =~= listed@);
    out
}

/// The entries that have the name.
pub open spec fn named_entries(listed: Seq<ListedAddr>, name: Seq<char>) -> Seq<ListedAddr> {
    listed.filter(|a: ListedAddr| a.name@ == name)
}

/// The names of the entries that count, in the order in which each comes first.
pub open spec fn names_of(listed: Seq<ListedAddr>) -> Seq<Seq<char>>
    decreases listed.len(),
{
    if listed.len() == 0 {
        Seq::empty()
    } else {
        let before = names_of(listed.drop_last());
        if counts(listed.last()) && !before.contains(listed.last().name@) {
            before.push(listed.last().name@)
        } else {
            before
        }
    }
}

/// Whether these are the interfaces of the entries: each name once, with all its addresses.
pub open spec fn groups(interfaces: Seq<Interface>, listed: Seq<ListedAddr>) -> bool {
    &&& interfaces.map_values(|f: Interface| f.name@) == names_of(listed)
    &&& forall|i: int|
        0 <= i < interfaces.len() ==> plain((#[trigger] interfaces[i]).addrs@) == usable(
            named_entries(listed, interfaces[i].name@),
        )
}

fn gather(listed: &[ListedAddr], name: &str) -> (out: Vec<(IpAddr, u8)>)
    ensures
        plain(out@) == usable(named_entries(listed@, name@)),
{
    let mut out: Vec<(IpAddr, u8)> = Vec::new();
    let mut i: usize = 0;
    assert(plain(out@) =~= Seq::empty());
    reveal(Seq::filter);
    while i < listed.len()
        invariant
            i <= listed@.len(),
            plain(out@) == usable(named_entries(listed@.take(i as int), name@)),
        decreases listed@.len() - i,
    {
        reveal(Seq::filter);
        let ghost entries = named_entries(listed@.take(i as int), name@);
        assert(listed@.take(i + 1).drop_last() =~= listed@.take(i as int));
        if text_eq(&listed[i].name, name) {
            assert(entries.push(listed@[i as int]).drop_last() =~= entries);
            if listed[i].up && !listed[i].loopback {
                let ghost before = out@;
                let len: u8 = prefix_len(listed[i].ip, listed[i].netmask);
                out.push((listed[i].ip, len));
                assert(plain(out@) =~= plain(before).push((listed@[i as int].ip, len as nat)));
            }
        }
        i += 1;
    }
    assert(listed@.take(i as int) =~= listed@);
    out
}

/// The interfaces that are up and lead out, each with all its addresses.
pub fn list_interfaces(listed: &[ListedAddr]) -> (out: Vec<Interface>)
    ensures
        groups(out@, listed@),
{
    let mut names: Vec<String> = Vec::new();
    let mut i: usize = 0;
    assert(texts(names@) =~= Seq::empty());
    while i < listed.len()
        invariant
            i <= listed@.len(),
            texts(names@) == names_of(listed@.take(i as int)),
        decreases listed@.len() - i,
    {
        assert(listed@.take(i + 1).drop_last() =~= listed@.take(i as int));
        if listed[i].up && !listed[i].loopback && !has_tag(&names, &listed[i].name) {
            let ghost before = names@;
            names.push(listed[i].name.clone());
            assert(texts(names@) =~= texts(before).push(listed@[i as int].name@));
        }
        i += 1;
    }
    assert(listed@.take(i as int) =~= listed@);
    let mut out: Vec<Interface> = Vec::new();
    let mut k: usize = 0;
    while k < names.len()
        invariant
            k <= names@.len(),
            out@.len() == k,
            forall|j: int|
                0 <= j < k ==> (#[trigger] out@[j]).name@ == names@[j]@ && plain(out@[j].addrs@)
                    == usable(named_entries(listed@, names@[j]@)),
        decreases names@.len() - k,
    {
        let addrs: Vec<(IpAddr, u8)> = gather(listed, &names[k]);
        out.push(Interface { name: names[k].clone(), addrs });
        k += 1;
    }
    assert(out@.map_values(|f: Interface| f.name@) =~= texts(names@));
    out
}

/// The interface of the default route in a route table: that of the first line, behind the
/// heading, whose destination and mask are zero. A line whose numbers cannot be read ends the
/// search.
pub open spec fn default_route(lines: Seq<char>) -> Option<Seq<char>>
    decreases lines.len(),
    via default_route_ends
{
    if lines.len() == 0 {
        None
    } else {
        let fields = words(first_line(lines));
        if fields.len() < 8 {
            default_route(behind_line(lines))
        } else {
            match (parsed_hex32(fields[1]), parsed_hex32(fields[7])) {
                (Some(dest), Some(mask)) => if dest == 0 && mask == 0 {
                    Some(fields[0])
                } else {
                    default_route(behind_line(lines))
                },
                _ => None,
            }
        }
    }
}

#[via_fn]
proof fn default_route_ends(lines: Seq<char>) {
    if lines.len() > 0 {
        behind_line_shorter(lines);
    }
}

/// Reads the interface of the default route out of a route table.
pub fn default_route_interface(content: &str) -> (name: Option<String>)
    ensures
        text_in(name) == default_route(behind_line(content@)),
{
    let chars: Vec<char> = chars_of(content);
    assert(chars@.skip(0) =~= chars@);
    let mut at: usize = line_end(&chars, 0);
    if at < chars.len() {
        at += 1;
    }
    assert(chars@.skip(at as int) =~= behind_line(content@));
    while at < chars.len()
        invariant
            at <= chars@.len(),
            default_route(chars@.skip(at as int)) == default_route(behind_line(content@)),
        decreases chars@.len() - at,
    {
        let end: usize = line_end(&chars, at);
        let line: &[char] = &chars[at..end];
        assert(line@ =~= chars@.subrange(at as int, end as int));
        let fields: Vec<String> = split_words(line);
        let ghost now = chars@.skip(at as int);
        if fields.len() >= 8 {
            assert(texts(fields@)[0] == fields@[0]@);
            assert(texts(fields@)[1] == fields@[1]@);
            assert(texts(fields@)[7] == fields@[7]@);
            match (parse_hex32(&fields[1]), parse_hex32(&fields[7])) {
                (Some(dest), Some(mask)) => {
                    if dest == 0 && mask == 0 {
                        return Some(fields[0].clone());
                    }
                },
                _ => {
                    return None;
                },
            }
        }
        if end >= chars.len() {
            assert(default_route(behind_line(now)) is None);
            return None;
        }
        at = end + 1;
    }
    None
}

/// The interface that a connection to `target` leaves by: that of the subnet, else that of the
/// default route.
pub fn choose_interface(target: IpAddr, interfaces: &[Interface], routes: Option<&str>) -> (name:
    Option<String>)
    ensures
        (forall|j: int| 0 <= j < interfaces@.len() ==> !fits(#[trigger] interfaces@[j], target))
            ==> text_in(name) == match routes {
            Some(r) => default_route(behind_line(r@)),
            None => None,
        },
        forall|i: int|
            0 <= i < interfaces@.len() && fits(#[trigger] interfaces@[i], target) && (forall|j: int|
                0 <= j < i ==> !fits(#[trigger] interfaces@[j], target)) ==> text_in(name) == Some(
                interfaces@[i].name@,
            ),
{
    match find_interface_by_addr(target, interfaces) {
        Some(i) => Some(interfaces[i].name.clone()),
        None => match routes {
            Some(r) => default_route_interface(r),
            None => None,
        },
    }
}

} // verus!
