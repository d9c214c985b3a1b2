//! An AnyTLS outbound: its client and the pool of sessions.

use crate::anytls::{
    expired_seqs, in_order, kept, may_go, newest_open, smaller, Idle, IdlePool,
};
use crate::config::AnyTlsOutboundConfig;
use crate::crypto::{sha256, sha256_of};
use crate::net::{target_text, Target, TargetText};
use crate::outbound::default_status;
use crate::socks_addr::{encode_target, socks_addr};
use crate::status::OutboundStatus;
use crate::wire::{be_bytes, put_bytes, put_len16};
use vstd::prelude::*;
use vstd::utf8::encode_utf8;

verus! {

/// How often idle sessions are looked at, in milliseconds, where the settings say nothing.
pub const DEFAULT_CHECK_INTERVAL_MS: u64 = 30_000;

/// For how many milliseconds a session may be idle, where the settings say nothing.
pub const DEFAULT_IDLE_TIMEOUT_MS: u64 = 60_000;

/// A value, or another where there is none.
pub open spec fn value_or(v: Option<u64>, other: u64) -> u64 {
    match v {
        Some(x) => x,
        None => other,
    }
}

fn choose_value(v: Option<u64>, other: u64) -> (x: u64)
    ensures
        x == value_or(v, other),
{
    match v {
        Some(x) => x,
        None => other,
    }
}

/// The first bytes of a connection: the hash of the password, and padding with its length.
pub open spec fn auth_packet(password: Seq<char>, padding: Seq<u8>) -> Seq<u8> {
    sha256_of(encode_utf8(password)) + be_bytes(padding.len(), 2) + padding
}

/// Makes the first bytes of a connection.
pub fn build_auth_packet(password: &str, padding: &[u8]) -> (out: Vec<u8>)
    ensures
        out@ == auth_packet(password@, padding@),
{
    let mut out: Vec<u8> = sha256(password.as_bytes());
    put_len16(&mut out, padding.len());
    put_bytes(&mut out, padding);
    assert(out@ =~= auth_packet(password@, padding@));
    out
}

/// The session that a stream is opened in.
#[derive(Clone, Copy, Debug, PartialEq, Eq, Structural)]
pub enum SessionChoice {
    /// An idle one.
    Reuse(u64),
    /// A new one, on a new connection.
    Create,
}

/// An AnyTLS client; `R` is what looks names up.
pub struct AnyTlsClient<R> {
    pub config: AnyTlsOutboundConfig,
    pub pool: IdlePool,
    pub routing_mark: u32,
    pub idle_check_interval: u64,
    pub idle_timeout: u64,
    pub min_idle_session: usize,
    pub resolver: Option<R>,
}

impl<R> AnyTlsClient<R> {
    /// The idle sessions stand in the order of their numbers.
    pub open spec fn wf(&self) -> bool {
        in_order(self.pool.idle@)
    }

    /// A client without sessions.
    pub fn new(config: AnyTlsOutboundConfig, routing_mark: u32, resolver: Option<R>) -> (c: Self)
        ensures
            c.wf(),
            c.config == config,
            c.pool.idle@.len() == 0,
            c.pool.session_seq == 0,
            c.routing_mark == routing_mark,
            c.idle_check_interval == value_or(
                config.idle_session_check_interval,
                DEFAULT_CHECK_INTERVAL_MS,
            ),
            c.idle_timeout == value_or(config.idle_session_timeout, DEFAULT_IDLE_TIMEOUT_MS),
            c.min_idle_session == config.min_idle_session,
            c.resolver == resolver,
    {
        AnyTlsClient {
            pool: IdlePool::new(),
            routing_mark,
            idle_check_interval: choose_value(
                config.idle_session_check_interval,
                DEFAULT_CHECK_INTERVAL_MS,
            ),
            idle_timeout: choose_value(config.idle_session_timeout, DEFAULT_IDLE_TIMEOUT_MS),
            min_idle_session: config.min_idle_session as usize,
            config,
            resolver,
        }
    }

    /// Chooses the session for a stream: the newest idle one that is not closed, else a new one.
    pub fn get_or_create_session(&mut self, closed: &Vec<u64>) -> (choice: SessionChoice)
        requires
            old(self).wf(),
        ensures
            final(self).wf(),
            match (choice, newest_open(old(self).pool.idle@, closed@)) {
                (SessionChoice::Reuse(s), Some(i)) => 0 <= i < old(self).pool.idle@.len() && s
                    == old(self).pool.idle@[i].seq && final(self).pool.idle@ == old(
                    self,
                ).pool.idle@.take(i),
                (SessionChoice::Create, None) => final(self).pool.idle@.len() == 0,
                _ => false,
            },
            *final(self) == (AnyTlsClient { pool: final(self).pool, ..*old(self) }),
            final(self).pool.session_seq == old(self).pool.session_seq,
    {
        match self.pool.take(closed) {
            Some(seq) => SessionChoice::Reuse(seq),
            None => SessionChoice::Create,
        }
    }

    /// Puts a session back into the pool, unless it is closed.
    pub fn return_idle(&mut self, seq: u64, closed: bool, now: u64)
        requires
            old(self).wf(),
        ensures
            final(self).wf(),
            *final(self) == (AnyTlsClient { pool: final(self).pool, ..*old(self) }),
            final(self).pool.session_seq == old(self).pool.session_seq,
            smaller(old(self).pool.idle@, seq) <= old(self).pool.idle@.len(),
            final(self).pool.idle@ == if closed {
                old(self).pool.idle@
            } else {
                old(self).pool.idle@.insert(
                    smaller(old(self).pool.idle@, seq) as int,
                    Idle { seq, since: now },
                )
            },
    {
        self.pool.return_idle(seq, closed, now);
    }

    /// Drops the sessions that have been idle for too long, but for the newest ones that are to
    /// stay. Gives the numbers of those to close.
    pub fn cleanup_idle(&mut self, now: u64) -> (closing: Vec<u64>)
        requires
            old(self).wf(),
        ensures
            final(self).wf(),
            *final(self) == (AnyTlsClient { pool: final(self).pool, ..*old(self) }),
            final(self).pool.session_seq == old(self).pool.session_seq,
            final(self).pool.idle@ == kept(
                old(self).pool.idle@,
                old(self).pool.idle@.len(),
                now,
                old(self).idle_timeout,
                old(self).min_idle_session as nat,
            ),
            closing@ == expired_seqs(
                old(self).pool.idle@,
                may_go(old(self).pool.idle@.len(), old(self).min_idle_session as nat),
                now,
                old(self).idle_timeout,
            ),
    {
        self.pool.cleanup(now, self.idle_timeout, self.min_idle_session)
    }

    /// The first bytes of a new connection.
    pub fn hello(&self, padding: &[u8]) -> (out: Vec<u8>)
        ensures
            out@ == auth_packet(self.config.password@, padding@),
    {
        build_auth_packet(&self.config.password, padding)
    }

    /// The first bytes of a stream to `target`.
    pub fn create_proxy(&self, target: &Target) -> (out: Vec<u8>)
        ensures
            out@ == socks_addr(*target),
    {
        encode_target(target)
    }

    /// The name that TLS asks for.
    pub fn tls_name(&self) -> (name: String)
        ensures
            name@ == match self.config.tls.server_name {
                Some(n) => n@,
                None => self.config.server@,
            },
    {
        match &self.config.tls.server_name {
            Some(n) => n.clone(),
            None => self.config.server.clone(),
        }
    }
}

/// An AnyTLS outbound.
pub struct AnyTlsOutbound<R> {
    pub client: AnyTlsClient<R>,
}

impl<R> AnyTlsOutbound<R> {
    /// Whether the outbound has just been made: it has no sessions yet.
    pub open spec fn unused(&self) -> bool {
        self.client.pool.idle@.len() == 0 && self.client.pool.session_seq == 0
    }

    /// An outbound that leaves names to the system.
    pub fn new(config: AnyTlsOutboundConfig) -> (o: Self)
        ensures
            o.unused(),
            o.client.wf(),
            o.client.config == config,
            o.client.routing_mark == 0,
            o.client.resolver is None,
            o.client.idle_check_interval == value_or(
                config.idle_session_check_interval,
                DEFAULT_CHECK_INTERVAL_MS,
            ),
            o.client.idle_timeout == value_or(config.idle_session_timeout, DEFAULT_IDLE_TIMEOUT_MS),
            o.client.min_idle_session == config.min_idle_session,
    {
        AnyTlsOutbound { client: AnyTlsClient::new(config, 0, None) }
    }

    /// Sets what looks names up, for a client without sessions.
    pub fn with_resolver(self, resolver: R) -> (o: Self)
        ensures
            o.unused(),
            o.client.wf(),
            o.client.config == self.client.config,
            o.client.routing_mark == self.client.routing_mark,
            o.client.resolver == Some(resolver),
            o.client.idle_check_interval == value_or(
                self.client.config.idle_session_check_interval,
                DEFAULT_CHECK_INTERVAL_MS,
            ),
            o.client.idle_timeout == value_or(
                self.client.config.idle_session_timeout,
                DEFAULT_IDLE_TIMEOUT_MS,
            ),
            o.client.min_idle_session == self.client.config.min_idle_session,
    {
        let client: AnyTlsClient<R> = self.client;
        AnyTlsOutbound { client: AnyTlsClient::new(client.config, client.routing_mark, Some(resolver)) }
    }

    /// Sets the mark of its packets, for a client without sessions.
    pub fn with_mark(self, mark: u32) -> (o: Self)
        ensures
            o.unused(),
            o.client.wf(),
            o.client.config == self.client.config,
            o.client.routing_mark == mark,
            o.client.resolver == self.client.resolver,
            o.client.idle_check_interval == value_or(
                self.client.config.idle_session_check_interval,
                DEFAULT_CHECK_INTERVAL_MS,
            ),
            o.client.idle_timeout == value_or(
                self.client.config.idle_session_timeout,
                DEFAULT_IDLE_TIMEOUT_MS,
            ),
            o.client.min_idle_session == self.client.config.min_idle_session,
    {
        let client: AnyTlsClient<R> = self.client;
        AnyTlsOutbound { client: AnyTlsClient::new(client.config, mark, client.resolver) }
    }

    /// Where a stream for datagrams goes.
    pub fn udp_target(&self) -> (target: Target)
        ensures
            target_text(target) == TargetText::Domain("sp.v2.udp-over-tcp.arpa"@, 443),
    {
        Target::Domain("sp.v2.udp-over-tcp.arpa".to_string(), 443)
    }

    /// What the outbound says about itself.
    pub fn status(&self) -> (s: OutboundStatus)
        ensures
            s.name@ == self.client.config.tag@,
            s.kind@ == "Proxy"@,
            s.now is None,
            s.all@.len() == 0,
            s.history@.len() == 0,
    {
        default_status(&self.client.config.tag)
    }
}

} // verus!
