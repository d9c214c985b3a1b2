//! The physical interface that sockets are held to while a tunnel takes the default route.

use super::interface_finder::{has_addr, owns};
use crate::net::IpAddr;
use crate::wire::{be_bytes, put_u32};
use vstd::prelude::*;

verus! {

/// The interface that was the way out before the tunnel was set up. Its numbers start at one;
/// zero stands for an interface that is not known.
#[derive(Clone, Copy, Debug, PartialEq, Eq, Structural)]
pub struct PhysicalInterface {
    pub if_index_v4: u32,
    pub if_index_v6: u32,
    pub src_ip_v4: Option<u32>,
    pub src_ip_v6: Option<u128>,
}

impl PhysicalInterface {
    /// Nothing is known.
    pub fn new() -> (state: PhysicalInterface)
        ensures
            state == (PhysicalInterface {
                if_index_v4: 0,
                if_index_v6: 0,
                src_ip_v4: None,
                src_ip_v6: None,
            }),
    {
        PhysicalInterface { if_index_v4: 0, if_index_v6: 0, src_ip_v4: None, src_ip_v6: None }
    }
}

/// A number that is known.
pub open spec fn known(idx: u32) -> Option<u32> {
    if idx == 0 {
        None
    } else {
        Some(idx)
    }
}

/// Keeps the number of the interface for IPv4.
pub fn set_physical_if_index_v4(state: &mut PhysicalInterface, idx: u32)
    ensures
        *final(state) == (PhysicalInterface { if_index_v4: idx, ..*old(state) }),
{
    state.if_index_v4 = idx;
}

/// Keeps the number of the interface for IPv6.
pub fn set_physical_if_index_v6(state: &mut PhysicalInterface, idx: u32)
    ensures
        *final(state) == (PhysicalInterface { if_index_v6: idx, ..*old(state) }),
{
    state.if_index_v6 = idx;
}

/// The number of the interface for IPv4.
pub fn physical_if_index_v4(state: &PhysicalInterface) -> (idx: Option<u32>)
    ensures
        idx == known(state.if_index_v4),
{
    if state.if_index_v4 == 0 {
        None
    } else {
        Some(state.if_index_v4)
    }
}

/// The number of the interface for IPv6.
pub fn physical_if_index_v6(state: &PhysicalInterface) -> (idx: Option<u32>)
    ensures
        idx == known(state.if_index_v6),
{
    if state.if_index_v6 == 0 {
        None
    } else {
        Some(state.if_index_v6)
    }
}

/// Keeps the IPv4 address of the interface.
pub fn set_physical_src_ip_v4(state: &mut PhysicalInterface, ip: u32)
    ensures
        *final(state) == (PhysicalInterface { src_ip_v4: Some(ip), ..*old(state) }),
{
    state.src_ip_v4 = Some(ip);
}

/// Keeps the IPv6 address of the interface.
pub fn set_physical_src_ip_v6(state: &mut PhysicalInterface, ip: u128)
    ensures
        *final(state) == (PhysicalInterface { src_ip_v6: Some(ip), ..*old(state) }),
{
    state.src_ip_v6 = Some(ip);
}

/// The IPv4 address of the interface.
pub fn physical_src_ip_v4(state: &PhysicalInterface) -> (ip: Option<u32>)
    ensures
        ip == state.src_ip_v4,
{
    state.src_ip_v4
}

/// The IPv6 address of the interface.
pub fn physical_src_ip_v6(state: &PhysicalInterface) -> (ip: Option<u128>)
    ensures
        ip == state.src_ip_v6,
{
    state.src_ip_v6
}

/// The address that a connection to `target` starts from: one of its family, and for IPv6 else
/// that for IPv4.
pub open spec fn source_for(state: PhysicalInterface, target: IpAddr) -> Option<IpAddr> {
    let v4 = match state.src_ip_v4 {
        Some(ip) => Some(IpAddr::V4(ip)),
        None => None,
    };
    match target {
        IpAddr::V4(_) => v4,
        IpAddr::V6(_) => match state.src_ip_v6 {
            Some(ip) => Some(IpAddr::V6(ip)),
            None => v4,
        },
    }
}

/// The address that a connection to `target` starts from.
pub fn physical_src_ip_for(state: &PhysicalInterface, target: IpAddr) -> (ip: Option<IpAddr>)
    ensures
        ip == source_for(*state, target),
{
    if !target.is_ipv4() {
        if let Some(ip) = state.src_ip_v6 {
            return Some(IpAddr::V6(ip));
        }
    }
    match state.src_ip_v4 {
        Some(ip) => Some(IpAddr::V4(ip)),
        None => None,
    }
}

/// Whether an address leads back to the host at once.
pub open spec fn loops_back(ip: IpAddr) -> bool {
    match ip {
        IpAddr::V4(v) => v / 16777216 == 127,
        IpAddr::V6(v) => v == 1,
    }
}

/// Whether an address leads back to the host at once.
pub fn is_loopback(ip: IpAddr) -> (yes: bool)
    ensures
        yes == loops_back(ip),
{
    match ip {
        IpAddr::V4(v) => v / 16777216 == 127,
        IpAddr::V6(v) => v == 1,
    }
}

/// A setting that holds a socket to an interface.
#[derive(Clone, Copy, Debug, PartialEq, Eq, Structural)]
pub enum BindOption {
    /// The way out for IPv4; the number is written in network order on Windows.
    UnicastV4(u32),
    MulticastV4(u32),
    /// The way out for IPv6; the number is written in the order of the host.
    UnicastV6(u32),
    MulticastV6(u32),
}

/// The settings on Windows: none for an address of the host itself. A socket for IPv6 is held to
/// the interface for IPv4 too.
pub open spec fn windows_options(state: PhysicalInterface, target: IpAddr) -> Seq<BindOption> {
    if loops_back(target) {
        Seq::empty()
    } else {
        match target {
            IpAddr::V4(_) => match known(state.if_index_v4) {
                Some(i) => seq![BindOption::UnicastV4(i), BindOption::MulticastV4(i)],
                None => Seq::empty(),
            },
            IpAddr::V6(_) => (match known(state.if_index_v6) {
                Some(i) => seq![BindOption::UnicastV6(i), BindOption::MulticastV6(i)],
                None => Seq::empty(),
            }) + (match known(state.if_index_v4) {
                Some(i) => seq![BindOption::UnicastV4(i)],
                None => Seq::empty(),
            }),
        }
    }
}

/// The settings that hold a socket to the interface on Windows.
pub fn windows_bind_options(state: &PhysicalInterface, target: IpAddr) -> (out: Vec<BindOption>)
    ensures
        out@ == windows_options(*state, target),
{
    let mut out: Vec<BindOption> = Vec::new();
    if !is_loopback(target) {
        if target.is_ipv4() {
            if let Some(i) = physical_if_index_v4(state) {
                out.push(BindOption::UnicastV4(i));
                out.push(BindOption::MulticastV4(i));
            }
        } else {
            if let Some(i) = physical_if_index_v6(state) {
                out.push(BindOption::UnicastV6(i));
                out.push(BindOption::MulticastV6(i));
            }
            if let Some(i) = physical_if_index_v4(state) {
                out.push(BindOption::UnicastV4(i));
            }
        }
    }
    assert(out@ =~= windows_options(*state, target));
    out
}

/// The bytes of an interface number as Windows takes them for IPv4.
pub fn network_index(idx: u32) -> (bytes: Vec<u8>)
    ensures
        bytes@ == be_bytes(idx as nat, 4),
{
    let mut bytes: Vec<u8> = Vec::new();
    put_u32(&mut bytes, idx);
    assert(bytes@ =~= be_bytes(idx as nat, 4));
    bytes
}

/// The setting that holds a socket to the interface on macOS.
pub fn macos_bind_option(state: &PhysicalInterface, target: IpAddr) -> (option: Option<BindOption>)
    ensures
        option == match target {
            IpAddr::V4(_) => match known(state.if_index_v4) {
                Some(i) => Some(BindOption::UnicastV4(i)),
                None => None,
            },
            IpAddr::V6(_) => match known(state.if_index_v6) {
                Some(i) => Some(BindOption::UnicastV6(i)),
                None => None,
            },
        },
{
    if target.is_ipv4() {
        match physical_if_index_v4(state) {
            Some(i) => Some(BindOption::UnicastV4(i)),
            None => None,
        }
    } else {
        match physical_if_index_v6(state) {
            Some(i) => Some(BindOption::UnicastV6(i)),
            None => None,
        }
    }
}

/// An adapter with the name servers that the system has for it.
#[derive(Clone, Debug)]
pub struct DnsAdapter {
    pub up: bool,
    pub loopback: bool,
    pub if_index: u32,
    pub servers: Vec<IpAddr>,
}

/// Whether the servers of an adapter are asked: it is up and leads out and is, where a physical
/// interface is known, that one.
pub open spec fn asks(state: PhysicalInterface, a: DnsAdapter) -> bool {
    &&& a.up
    &&& !a.loopback
    &&& (state.if_index_v4 == 0 && state.if_index_v6 == 0) || known(state.if_index_v4) == Some(
        a.if_index,
    ) || known(state.if_index_v6) == Some(a.if_index)
}

/// Whether an address can be a name server: it is set, and no address of this host.
pub open spec fn serves(own: Seq<(IpAddr, u8)>, ip: IpAddr) -> bool {
    ip != IpAddr::V4(0) && ip != IpAddr::V6(0) && !owns(own, ip)
}

/// `list` with those of `more` behind it that can serve and are not in it yet.
pub open spec fn with_servers(
    own: Seq<(IpAddr, u8)>,
    list: Seq<IpAddr>,
    more: Seq<IpAddr>,
) -> Seq<IpAddr>
    decreases more.len(),
{
    if more.len() == 0 {
        list
    } else {
        let before = with_servers(own, list, more.drop_last());
        if serves(own, more.last()) && !before.contains(more.last()) {
            before.push(more.last())
        } else {
            before
        }
    }
}

/// The name servers of the adapters.
pub open spec fn dns_of(
    state: PhysicalInterface,
    own: Seq<(IpAddr, u8)>,
    adapters: Seq<DnsAdapter>,
) -> Seq<IpAddr>
    decreases adapters.len(),
{
    if adapters.len() == 0 {
        Seq::empty()
    } else {
        let before = dns_of(state, own, adapters.drop_last());
        if asks(state, adapters.last()) {
            with_servers(own, before, adapters.last().servers@)
        } else {
            before
        }
    }
}

fn add_servers(own: &[(IpAddr, u8)], out: &mut Vec<IpAddr>, more: &[IpAddr])
    ensures
        final(out)@ == with_servers(own@, old(out)@, more@),
{
    let mut i: usize = 0;
    assert(more@.take(0) =~= Seq::empty());
    while i < more.len()
        invariant
            i <= more@.len(),
            out@ == with_servers(own@, old(out)@, more@.take(i as int)),
        decreases more@.len() - i,
    {
        assert(more@.take(i + 1).drop_last() =~= more@.take(i as int));
        let ip: IpAddr = more[i];
        if ip != IpAddr::V4(0) && ip != IpAddr::V6(0) && !has_addr(own, ip) && !has_ip(out, ip) {
            out.push(ip);
        }
        i += 1;
    }
    assert(more@.take(i as int) =~= more@);
}

fn has_ip(list: &[IpAddr], ip: IpAddr) -> (yes: bool)
    ensures
        yes == list@.contains(ip),
{
    let mut i: usize = 0;
    while i < list.len()
        invariant
            i <= list@.len(),
            forall|j: int| 0 <= j < i ==> list@[j] != ip,
        decreases list@.len() - i,
    {
        if list[i] == ip {
            assert(list@[i as int] == ip);
            return true;
        }
        i += 1;
    }
    false
}

/// The name servers to ask. `own` are the addresses of this host.
pub fn system_dns_servers(
    state: &PhysicalInterface,
    own: &[(IpAddr, u8)],
    adapters: &[DnsAdapter],
) -> (out: Vec<IpAddr>)
    ensures
        out@ == dns_of(*state, own@, adapters@),
{
    let mut out: Vec<IpAddr> = Vec::new();
    let mut i: usize = 0;
    while i < adapters.len()
        invariant
            i <= adapters@.len(),
            out@ == dns_of(*state, own@, adapters@.take(i as int)),
        decreases adapters@.len() - i,
    {
        assert(adapters@.take(i + 1).drop_last() =~= adapters@.take(i as int));
        let idx: u32 = adapters[i].if_index;
        if adapters[i].up && !adapters[i].loopback && ((state.if_index_v4 == 0
            && state.if_index_v6 == 0) || (idx != 0 && (idx == state.if_index_v4 || idx
            == state.if_index_v6))) {
            add_servers(own, &mut out, &adapters[i].servers);
        }
        i += 1;
    }
    assert(adapters@.take(i as int) =~= adapters@);
    out
}

/// No server is asked twice, and none is an address of this host.
pub proof fn servers_are_good(
    state: PhysicalInterface,
    own: Seq<(IpAddr, u8)>,
    adapters: Seq<DnsAdapter>,
)
    ensures
        dns_of(state, own, adapters).no_duplicates(),
        forall|i: int|
            0 <= i < dns_of(state, own, adapters).len() ==> serves(
                own,
                #[trigger] dns_of(state, own, adapters)[i],
            ),
    decreases adapters.len(),
{
    if adapters.len() > 0 {
        servers_are_good(state, own, adapters.drop_last());
        let before = dns_of(state, own, adapters.drop_last());
        added_are_good(own, before, adapters.last().servers@);
    }
}

proof fn added_are_good(own: Seq<(IpAddr, u8)>, list: Seq<IpAddr>, more: Seq<IpAddr>)
    requires
        list.no_duplicates(),
        forall|i: int| 0 <= i < list.len() ==> serves(own, #[trigger] list[i]),
    ensures
        with_servers(own, list, more).no_duplicates(),
        forall|i: int|
            0 <= i < with_servers(own, list, more).len() ==> serves(
                own,
                #[trigger] with_servers(own, list, more)[i],
            ),
    decreases more.len(),
{
    if more.len() > 0 {
        added_are_good(own, list, more.drop_last());
    }
}

} // verus!
