//! The address ranges of this host, by which connections back into it are refused.

use super::interface_finder::{has_addr, in_subnet, ip_in_subnet, owns};
use crate::net::IpAddr;
use vstd::prelude::*;

verus! {

/// For how many seconds the ranges hold.
pub const REFRESH_TTL: u64 = 10;

/// The ranges of the interfaces, as they were last looked up.
pub struct LocalRanges {
    pub prefixes: Vec<(IpAddr, u8)>,
    /// The time of the last look, in seconds; zero before the first.
    pub last_refresh: u64,
}

/// Whether an address lies in a range. Where `exempt_own` is set, a range does not count for its
/// own address.
pub open spec fn local_in(addr: IpAddr, prefixes: Seq<(IpAddr, u8)>, exempt_own: bool) -> bool {
    exists|i: int|
        0 <= i < prefixes.len() && !(exempt_own && prefixes[i].0 == addr) && in_subnet(
            (#[trigger] prefixes[i]).0,
            prefixes[i].1,
            addr,
        )
}

/// Whether an address lies in one of the ranges.
pub fn is_local_in(addr: IpAddr, prefixes: &[(IpAddr, u8)], exempt_own: bool) -> (yes: bool)
    ensures
        yes == local_in(addr, prefixes@, exempt_own),
{
    let mut i: usize = 0;
    while i < prefixes.len()
        invariant
            i <= prefixes@.len(),
            forall|j: int|
                0 <= j < i ==> (exempt_own && prefixes@[j].0 == addr) || !in_subnet(
                    (#[trigger] prefixes@[j]).0,
                    prefixes@[j].1,
                    addr,
                ),
        decreases prefixes@.len() - i,
    {
        let base: IpAddr = prefixes[i].0;
        if !(exempt_own && base == addr) && ip_in_subnet(base, prefixes[i].1, addr) {
            assert(in_subnet(prefixes@[i as int].0, prefixes@[i as int].1, addr));
            return true;
        }
        i += 1;
    }
    false
}

impl LocalRanges {
    /// No ranges yet.
    pub fn new() -> (ranges: LocalRanges)
        ensures
            ranges.prefixes@.len() == 0,
            ranges.last_refresh == 0,
    {
        LocalRanges { prefixes: Vec::new(), last_refresh: 0 }
    }

    /// Whether the ranges are too old at a time.
    pub open spec fn old_at(self, now: nat) -> bool {
        now > self.last_refresh + REFRESH_TTL
    }

    /// Whether the ranges are to be looked up anew.
    pub fn stale(&self, now: u64) -> (yes: bool)
        ensures
            yes == self.old_at(now as nat),
    {
        now > self.last_refresh && now - self.last_refresh > REFRESH_TTL
    }

    /// Takes ranges that were looked up.
    pub fn refresh(&mut self, prefixes: Vec<(IpAddr, u8)>, now: u64)
        ensures
            *final(self) == (LocalRanges { prefixes, last_refresh: now }),
    {
        self.prefixes = prefixes;
        self.last_refresh = now;
    }

    /// Whether a connection to the address would come back into this host.
    pub fn is_local_loopback(&self, addr: IpAddr, exempt_own: bool) -> (yes: bool)
        ensures
            yes == local_in(addr, self.prefixes@, exempt_own),
    {
        is_local_in(addr, &self.prefixes, exempt_own)
    }

    /// Whether the address is one of this host.
    pub fn is_own_address(&self, addr: IpAddr) -> (yes: bool)
        ensures
            yes == owns(self.prefixes@, addr),
    {
        has_addr(&self.prefixes, addr)
    }

    /// Takes ranges that hold for an hour.
    pub fn set_for_test(&mut self, prefixes: Vec<(IpAddr, u8)>, now: u64)
        requires
            now <= u64::MAX - 3600,
        ensures
            *final(self) == (LocalRanges { prefixes, last_refresh: (now + 3600) as u64 }),
    {
        self.prefixes = prefixes;
        self.last_refresh = now + 3600;
    }
}

/// A table of one range is local for all of it but, where that is exempt, the address itself.
pub proof fn one_range(base: IpAddr, prefix_len: u8, addr: IpAddr)
    ensures
        local_in(addr, seq![(base, prefix_len)], true) <==> (addr != base && in_subnet(
            base,
            prefix_len,
            addr,
        )),
        local_in(addr, seq![(base, prefix_len)], false) <==> in_subnet(base, prefix_len, addr),
{
    let table = seq![(base, prefix_len)];
    assert(table[0] == (base, prefix_len));
}

/// Freshly looked up ranges hold for as long as they may.
pub proof fn fresh_holds(ranges: LocalRanges, now: nat)
    requires
        ranges.last_refresh <= now <= ranges.last_refresh + REFRESH_TTL,
    ensures
        !ranges.old_at(now),
        ranges.old_at((ranges.last_refresh + REFRESH_TTL + 1) as nat),
{
}

} // verus!
