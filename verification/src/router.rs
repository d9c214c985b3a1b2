//! Which UDP session a datagram of a shared QUIC connection belongs to.

use crate::wire::{be_value, read_u32};
use dashmap::DashMap;
use std::collections::hash_map::RandomState;
use vstd::prelude::*;

verus! {

/// The concurrent map of the `dashmap` crate.
#[verifier::external_type_specification]
#[verifier::external_body]
#[verifier::reject_recursive_types(K)]
#[verifier::reject_recursive_types(V)]
#[verifier::reject_recursive_types(S)]
pub struct ExDashMap<K, V, S>(DashMap<K, V, S>);

/// What a map from session numbers to channel numbers holds.
pub uninterp spec fn routes(map: DashMap<u32, u64, RandomState>) -> Map<u32, u64>;

/// The map that holds nothing.
pub open spec fn no_routes() -> Map<u32, u64> {
    Map::empty()
}

/// `DashMap::new`: a map that holds nothing.
#[verifier::external_body]
fn map_new() -> (fresh: DashMap<u32, u64, RandomState>)
    ensures
        routes(fresh) == no_routes(),
{
    DashMap::new()
}

/// `DashMap::insert`: the key now has the value, whatever it had before; other keys keep
/// theirs.
#[verifier::external_body]
fn map_insert(map: &mut DashMap<u32, u64, RandomState>, key: u32, value: u64)
    ensures
        routes(*final(map)) == routes(*old(map)).insert(key, value),
{
    map.insert(key, value);
}

/// `DashMap::remove`: the key has no value any more; other keys keep theirs.
#[verifier::external_body]
fn map_remove(map: &mut DashMap<u32, u64, RandomState>, key: u32)
    ensures
        routes(*final(map)) == routes(*old(map)).remove(key),
{
    map.remove(&key);
}

/// `DashMap::get`: the value of the key, if it has one.
#[verifier::external_body]
fn map_get(map: &DashMap<u32, u64, RandomState>, key: u32) -> (value: Option<u64>)
    ensures
        value == if routes(*map).dom().contains(key) {
            Some(routes(*map)[key])
        } else {
            None
        },
{
    map.get(&key).map(|v| *v)
}

/// The receiving channels of the UDP sessions that share a connection. One reader takes all
/// datagrams and hands each to the channel of its session.
pub struct DatagramRouter {
    sessions: DashMap<u32, u64, RandomState>,
}

/// The session that a datagram names, if it is long enough to name one.
pub open spec fn session_of(d: Seq<u8>) -> Option<u32> {
    if d.len() < 8 {
        None
    } else {
        Some(be_value(d.subrange(0, 4)) as u32)
    }
}

impl DatagramRouter {
    /// The channel of each registered session.
    pub closed spec fn view(&self) -> Map<u32, u64> {
        routes(self.sessions)
    }

    pub fn new() -> (router: DatagramRouter)
        ensures
            router.view() == no_routes(),
    {
        DatagramRouter { sessions: map_new() }
    }

    /// Lets `channel` receive the datagrams of a session.
    pub fn register(&mut self, session_id: u32, channel: u64)
        ensures
            final(self).view() == old(self).view().insert(session_id, channel),
    {
        map_insert(&mut self.sessions, session_id, channel);
    }

    /// Ends a session.
    pub fn unregister(&mut self, session_id: u32)
        ensures
            final(self).view() == old(self).view().remove(session_id),
    {
        map_remove(&mut self.sessions, session_id);
    }

    /// The channel that a datagram goes to. One of an unknown session, or too short to name
    /// one, is dropped.
    pub fn dispatch(&self, datagram: &[u8]) -> (channel: Option<u64>)
        ensures
            channel == match session_of(datagram@) {
                Some(s) => if self.view().dom().contains(s) {
                    Some(self.view()[s])
                } else {
                    None
                },
                None => None,
            },
    {
        if datagram.len() < 8 {
            return None;
        }
        map_get(&self.sessions, read_u32(datagram, 0))
    }
}

/// A session that has been registered and not ended receives its own datagrams and no
/// others: registering or ending another session changes nothing for it.
pub proof fn sessions_do_not_interfere(map: Map<u32, u64>, s: u32, other: u32, channel: u64)
    requires
        s != other,
        map.dom().contains(s),
    ensures
        map.insert(other, channel).dom().contains(s),
        map.insert(other, channel)[s] == map[s],
        map.remove(other).dom().contains(s),
        map.remove(other)[s] == map[s],
{
}

} // verus!
