//! What all outbounds share: the mark of their packets, the lookup of their servers, and the
//! counting of what they carry.

use crate::ip_text::{ip_of, parse_ip};
use crate::net::{target_text, IpAddr, SocketAddr, Target, TargetText};
use crate::status::OutboundStatus;
use vstd::prelude::*;

verus! {

/// How long the lookup of a server may take, in seconds.
pub const LOOKUP_TIMEOUT_SECS: u64 = 5;

/// How long a connection may be idle before it is probed, in seconds.
pub const TCP_KEEPALIVE_IDLE_SECS: u64 = 60;

/// How many seconds pass between two probes.
pub const TCP_KEEPALIVE_INTERVAL_SECS: u64 = 15;

/// How many bytes are passed on at a time.
pub const RELAY_BUF_SIZE: usize = 65536;

/// The mark by which Android lets packets past its tunnel.
pub const ANDROID_VPN_PROTECT_MARK: u32 = 0x20000;

/// The mark that all outbounds share; zero for none.
#[derive(Clone, Copy, Debug, PartialEq, Eq, Structural)]
pub struct RoutingMark {
    pub mark: u32,
}

impl RoutingMark {
    /// No mark.
    pub fn new() -> (m: RoutingMark)
        ensures
            m.mark == 0,
    {
        RoutingMark { mark: 0 }
    }
}

/// Sets the mark that all outbounds share.
pub fn set_global_routing_mark(state: &mut RoutingMark, mark: u32)
    ensures
        final(state).mark == mark,
{
    state.mark = mark;
}

/// The mark that all outbounds share.
pub fn global_routing_mark(state: &RoutingMark) -> (mark: u32)
    ensures
        mark == state.mark,
{
    state.mark
}

/// The systems that differ in how packets are kept out of a tunnel.
#[derive(Clone, Copy, Debug, PartialEq, Eq, Structural)]
pub enum Platform {
    Linux,
    Android,
    /// One without marks.
    Other,
}

/// The mark that is set on a socket, if any. One that cannot be set ends the connection on Linux
/// only.
pub fn socket_mark(platform: Platform, mark: u32) -> (set: Option<u32>)
    ensures
        set == match platform {
            Platform::Linux => if mark == 0 {
                None::<u32>
            } else {
                Some(mark)
            },
            Platform::Android => Some(ANDROID_VPN_PROTECT_MARK),
            Platform::Other => None::<u32>,
        },
{
    match platform {
        Platform::Linux => if mark == 0 {
            None
        } else {
            Some(mark)
        },
        Platform::Android => Some(ANDROID_VPN_PROTECT_MARK),
        Platform::Other => None,
    }
}

/// How a server is found.
#[derive(Clone, Copy, Debug, PartialEq, Eq, Structural)]
pub enum ServerLookup {
    /// It is named by its address.
    Known(SocketAddr),
    /// By the resolver of the outbound, which must not ask by way of this same outbound.
    AskResolver,
    AskSystem,
}

/// How a server is found: an address is taken as it is, and a name goes to the resolver, where
/// there is one.
pub fn server_lookup(server: &str, port: u16, has_resolver: bool) -> (lookup: ServerLookup)
    ensures
        lookup == match ip_of(server@) {
            Some(ip) => ServerLookup::Known(SocketAddr { ip, port }),
            None => if has_resolver {
                ServerLookup::AskResolver
            } else {
                ServerLookup::AskSystem
            },
        },
{
    match parse_ip(server) {
        Some(ip) => ServerLookup::Known(SocketAddr { ip, port }),
        None => if has_resolver {
            ServerLookup::AskResolver
        } else {
            ServerLookup::AskSystem
        },
    }
}

/// How a target is found: a name goes to the resolver even where it spells an address.
pub fn target_lookup(target: &Target, has_resolver: bool) -> (lookup: ServerLookup)
    ensures
        lookup == match target_text(*target) {
            TargetText::Socket(addr) => ServerLookup::Known(addr),
            TargetText::Domain(_, _) => if has_resolver {
                ServerLookup::AskResolver
            } else {
                ServerLookup::AskSystem
            },
        },
{
    match target {
        Target::Socket(addr) => ServerLookup::Known(*addr),
        Target::Domain(_, _) => if has_resolver {
            ServerLookup::AskResolver
        } else {
            ServerLookup::AskSystem
        },
    }
}

/// Why no address was found.
#[derive(Clone, Copy, Debug, PartialEq, Eq, Structural)]
pub enum LookupError {
    Timeout,
    Failed,
    /// The answer holds no address.
    NoAddress,
}

/// The address that the resolver's answer leads to.
pub fn resolver_answer(answer: Result<IpAddr, LookupError>, port: u16) -> (res: Result<
    SocketAddr,
    LookupError,
>)
    ensures
        res == match answer {
            Ok(ip) => Ok::<SocketAddr, LookupError>(SocketAddr { ip, port }),
            Err(e) => Err::<SocketAddr, LookupError>(e),
        },
{
    match answer {
        Ok(ip) => Ok(SocketAddr { ip, port }),
        Err(e) => Err(e),
    }
}

/// The address that the system's answer leads to: its first.
pub fn system_answer(answer: Result<&[SocketAddr], LookupError>) -> (res: Result<
    SocketAddr,
    LookupError,
>)
    ensures
        res == match answer {
            Ok(addrs) => if addrs@.len() == 0 {
                Err::<SocketAddr, LookupError>(LookupError::NoAddress)
            } else {
                Ok::<SocketAddr, LookupError>(addrs@[0])
            },
            Err(e) => Err::<SocketAddr, LookupError>(e),
        },
{
    match answer {
        Ok(addrs) => if addrs.len() == 0 {
            Err(LookupError::NoAddress)
        } else {
            Ok(addrs[0])
        },
        Err(e) => Err(e),
    }
}

/// What becomes of the bytes that were read.
#[derive(Clone, Copy, Debug, PartialEq, Eq, Structural)]
pub enum CopyStep {
    /// They are written and flushed.
    Write,
    /// Nothing more is read, and the other side is told so.
    End,
}

/// The passing on of data one way.
#[derive(Clone, Copy, Debug, PartialEq, Eq, Structural)]
pub struct CopyHalf {
    /// How many bytes were passed on.
    pub total: u64,
    pub ended: bool,
}

impl CopyHalf {
    /// Nothing was passed on.
    pub fn new() -> (half: CopyHalf)
        ensures
            half == (CopyHalf { total: 0, ended: false }),
    {
        CopyHalf { total: 0, ended: false }
    }

    /// A read has ended with so many bytes, none at the end or on a failure.
    pub fn on_read(&mut self, n: usize) -> (step: CopyStep)
        ensures
            step == if n == 0 {
                CopyStep::End
            } else {
                CopyStep::Write
            },
            *final(self) == (CopyHalf { ended: old(self).ended || n == 0, ..*old(self) }),
    {
        if n == 0 {
            self.ended = true;
            CopyStep::End
        } else {
            CopyStep::Write
        }
    }

    /// A write of so many bytes has ended. Bytes count once they are flushed too; a failure ends
    /// the way.
    pub fn on_written(&mut self, n: usize, written: bool, flushed: bool)
        requires
            old(self).total + n <= u64::MAX,
        ensures
            *final(self) == if written && flushed {
                CopyHalf { total: (old(self).total + n) as u64, ..*old(self) }
            } else {
                CopyHalf { ended: true, ..*old(self) }
            },
    {
        if written && flushed {
            self.total += n as u64;
        } else {
            self.ended = true;
        }
    }
}

/// What a stream has carried so far, counted as it goes.
#[derive(Clone, Copy, Debug, PartialEq, Eq, Structural)]
pub struct LiveCounters {
    pub live_up: i64,
    pub live_down: i64,
}

/// A counter after `n` more. It wraps round.
pub open spec fn counted(counter: i64, n: nat) -> i64 {
    if counter + n > i64::MAX {
        (counter + n - 0x1_0000_0000_0000_0000) as i64
    } else {
        (counter + n) as i64
    }
}

impl LiveCounters {
    /// A buffer was filled from `before` to `after` bytes: that much came down.
    pub fn on_read(&mut self, before: usize, after: usize)
        ensures
            *final(self) == (LiveCounters {
                live_down: if after > before {
                    counted(old(self).live_down, (after - before) as nat)
                } else {
                    old(self).live_down
                },
                ..*old(self)
            }),
    {
        if after > before {
            self.live_down = self.live_down.wrapping_add_unsigned((after - before) as u64);
        }
    }

    /// So many bytes were written: that much went up.
    pub fn on_write(&mut self, n: usize)
        ensures
            *final(self) == (LiveCounters {
                live_up: counted(old(self).live_up, n as nat),
                ..*old(self)
            }),
    {
        self.live_up = self.live_up.wrapping_add_unsigned(n as u64);
    }
}

/// What an outbound says about itself that says nothing more.
pub fn default_status(tag: &String) -> (s: OutboundStatus)
    ensures
        s.name@ == tag@,
        s.kind@ == "Proxy"@,
        s.now is None,
        s.all@.len() == 0,
        s.history@.len() == 0,
{
    OutboundStatus::leaf(tag, "Proxy")
}

} // verus!
