//! SOCKS4, 4a and 5 client.
//!
//! The handshakes are steps from what the proxy has sent to what to send next; the caller
//! reads as many bytes as a step asks for and hands them over.

use crate::config::{socks_version, ConfigError, SocksOutboundConfig, SocksVersion};
use crate::net::{IpAddr, SocketAddr, Target};
use crate::socks_addr::{
    measure_socks_addr, put_socks_addr, readable_addr, socks_addr, socks_addr_len,
    socks_addr_read_back, SocksAddrError, SOCKS5_ATYP_DOMAIN, SOCKS5_ATYP_IPV4, SOCKS5_ATYP_IPV6,
};
use crate::status::OutboundStatus;
use crate::wire::{be_bytes, be_value, put_bytes, put_u16, put_u32, read_u128, read_u16, read_u32};
use vstd::prelude::*;
use vstd::utf8::encode_utf8;

verus! {

pub const SOCKS5_VERSION: u8 = 5;

pub const SOCKS5_NO_AUTH: u8 = 0;

pub const SOCKS5_USER_PASS_AUTH: u8 = 2;

pub const SOCKS5_NO_ACCEPTABLE: u8 = 0xff;

pub const SOCKS5_CMD_CONNECT: u8 = 1;

pub const SOCKS5_CMD_UDP_ASSOCIATE: u8 = 3;

pub const SOCKS4_REP_SUCCESS: u8 = 0x5a;

/// Why a handshake fails.
#[derive(Clone, Copy, Debug, PartialEq, Eq, Structural)]
pub enum SocksError {
    /// The proxy speaks another version.
    Version,
    /// The proxy accepts none of the methods.
    NoAcceptableMethod,
    CredentialsTooLong,
    AuthenticationFailed,
    DomainTooLong,
    ReplyVersion,
    /// The proxy refuses, with its reason.
    Refused(u8),
    /// The proxy answers with an address of an unknown type.
    UnknownAddressType(u8),
    /// SOCKS4 has no IPv6.
    Ipv6Target,
    /// The first byte of a SOCKS4 answer.
    Socks4Version(u8),
}

/// What a SOCKS5 handshake is for.
pub enum Purpose {
    Connect(Target),
    UdpAssociate,
}

/// What the proxy is to send next.
#[derive(Clone, Copy, Debug, PartialEq, Eq, Structural)]
pub enum Phase {
    /// The method it chose.
    Method,
    /// Whether it accepts the credentials.
    Auth,
    /// The head of its answer.
    ReplyHead,
    /// The rest of an answer with an address of that type.
    Bound4,
    Bound6,
    /// The length of a name.
    BoundNameLen,
    /// A name of that length, and the port.
    BoundName(u8),
    /// Nothing: the handshake is over.
    Done,
}

/// A SOCKS5 handshake.
pub struct Socks5Handshake {
    pub purpose: Purpose,
    pub username: Option<String>,
    pub password: Option<String>,
    pub phase: Phase,
    /// Where to send datagrams, once the proxy has said it.
    pub relay: Option<SocketAddr>,
}

/// How many bytes the proxy is to send in a phase.
pub open spec fn phase_len(phase: Phase) -> nat {
    match phase {
        Phase::Method | Phase::Auth => 2,
        Phase::ReplyHead => 4,
        Phase::Bound4 => 6,
        Phase::Bound6 => 18,
        Phase::BoundNameLen => 1,
        Phase::BoundName(n) => n as nat + 2,
        Phase::Done => 0,
    }
}

/// The bytes of an optional text, none where it is missing.
pub open spec fn text_bytes(s: Option<String>) -> Seq<u8> {
    match s {
        Some(t) => encode_utf8(t@),
        None => Seq::empty(),
    }
}

/// The offer of methods: the credentials are offered only where there is a user name.
pub open spec fn method_offer(has_user: bool) -> Seq<u8> {
    if has_user {
        seq![SOCKS5_VERSION, 2u8, SOCKS5_NO_AUTH, SOCKS5_USER_PASS_AUTH]
    } else {
        seq![SOCKS5_VERSION, 1u8, SOCKS5_NO_AUTH]
    }
}

/// The credentials.
pub open spec fn credentials(user: Seq<u8>, pass: Seq<u8>) -> Seq<u8> {
    seq![1u8, (user.len() % 256) as u8] + user + seq![(pass.len() % 256) as u8] + pass
}

/// The request.
pub open spec fn request_bytes(purpose: Purpose) -> Result<Seq<u8>, SocksError> {
    match purpose {
        Purpose::Connect(target) => if readable_addr(target) {
            Ok(seq![SOCKS5_VERSION, SOCKS5_CMD_CONNECT, 0u8] + socks_addr(target))
        } else {
            Err(SocksError::DomainTooLong)
        },
        Purpose::UdpAssociate => Ok(
            seq![
                SOCKS5_VERSION,
                SOCKS5_CMD_UDP_ASSOCIATE,
                0u8,
                SOCKS5_ATYP_IPV4,
                0u8,
                0u8,
                0u8,
                0u8,
                0u8,
                0u8,
            ],
        ),
    }
}

/// What the client does once the proxy has sent `r` in a phase: the next phase and what to
/// send.
pub open spec fn next_step(
    purpose: Purpose,
    user: Option<String>,
    pass: Option<String>,
    phase: Phase,
    r: Seq<u8>,
) -> Result<(Phase, Seq<u8>), SocksError> {
    match phase {
        Phase::Method => if r[0] != SOCKS5_VERSION {
            Err(SocksError::Version)
        } else if r[1] == SOCKS5_NO_ACCEPTABLE {
            Err(SocksError::NoAcceptableMethod)
        } else if r[1] == SOCKS5_USER_PASS_AUTH {
            if purpose is Connect && (text_bytes(user).len() > 255 || text_bytes(pass).len()
                > 255) {
                Err(SocksError::CredentialsTooLong)
            } else {
                Ok((Phase::Auth, credentials(text_bytes(user), text_bytes(pass))))
            }
        } else {
            ask(purpose)
        },
        Phase::Auth => if r[1] != 0 {
            Err(SocksError::AuthenticationFailed)
        } else {
            ask(purpose)
        },
        Phase::ReplyHead => if r[0] != SOCKS5_VERSION {
            Err(SocksError::ReplyVersion)
        } else if r[1] != 0 {
            Err(SocksError::Refused(r[1]))
        } else if r[3] == SOCKS5_ATYP_IPV4 {
            Ok((Phase::Bound4, Seq::empty()))
        } else if r[3] == SOCKS5_ATYP_IPV6 {
            Ok((Phase::Bound6, Seq::empty()))
        } else if r[3] == SOCKS5_ATYP_DOMAIN && purpose is Connect {
            Ok((Phase::BoundNameLen, Seq::empty()))
        } else {
            Err(SocksError::UnknownAddressType(r[3]))
        },
        Phase::BoundNameLen => Ok((Phase::BoundName(r[0]), Seq::empty())),
        _ => Ok((Phase::Done, Seq::empty())),
    }
}

/// The step of sending the request.
pub open spec fn ask(purpose: Purpose) -> Result<(Phase, Seq<u8>), SocksError> {
    match request_bytes(purpose) {
        Ok(b) => Ok((Phase::ReplyHead, b)),
        Err(e) => Err(e),
    }
}

/// The address in the last part of an answer.
pub open spec fn bound_addr(phase: Phase, r: Seq<u8>) -> Option<SocketAddr> {
    match phase {
        Phase::Bound4 => Some(
            SocketAddr {
                ip: IpAddr::V4(be_value(r.subrange(0, 4)) as u32),
                port: be_value(r.subrange(4, 6)) as u16,
            },
        ),
        Phase::Bound6 => Some(
            SocketAddr {
                ip: IpAddr::V6(be_value(r.subrange(0, 16)) as u128),
                port: be_value(r.subrange(16, 18)) as u16,
            },
        ),
        _ => None,
    }
}

/// Every path through the handshake ends: each step leads to a later phase.
pub open spec fn phase_rank(phase: Phase) -> nat {
    match phase {
        Phase::Method => 5,
        Phase::Auth => 4,
        Phase::ReplyHead => 3,
        Phase::BoundNameLen => 2,
        Phase::Bound4 | Phase::Bound6 | Phase::BoundName(_) => 1,
        Phase::Done => 0,
    }
}

/// A handshake ends after at most five answers of the proxy.
pub proof fn handshake_ends(
    purpose: Purpose,
    user: Option<String>,
    pass: Option<String>,
    phase: Phase,
    r: Seq<u8>,
)
    requires
        phase != Phase::Done,
    ensures
        next_step(purpose, user, pass, phase, r) matches Ok((next, _)) ==> phase_rank(next)
            < phase_rank(phase) <= 5,
{
}

fn put_request(out: &mut Vec<u8>, purpose: &Purpose) -> (res: Result<(), SocksError>)
    ensures
        match (res, request_bytes(*purpose)) {
            (Ok(_), Ok(b)) => final(out)@ == old(out)@ + b,
            (Err(e), Err(f)) => e == f,
            _ => false,
        },
{
    match purpose {
        Purpose::Connect(target) => {
            match target {
                Target::Domain(host, _) => {
                    if host.as_str().as_bytes().len() > 255 {
                        return Err(SocksError::DomainTooLong);
                    }
                },
                Target::Socket(_) => {},
            }
            out.push(SOCKS5_VERSION);
            out.push(SOCKS5_CMD_CONNECT);
            out.push(0);
            put_socks_addr(out, target);
        },
        Purpose::UdpAssociate => {
            let req: [u8; 10] = [
                SOCKS5_VERSION,
                SOCKS5_CMD_UDP_ASSOCIATE,
                0,
                SOCKS5_ATYP_IPV4,
                0,
                0,
                0,
                0,
                0,
                0,
            ];
            put_bytes(out, &req);
        },
    }
    assert(request_bytes(*purpose) matches Ok(b) && out@ =~= old(out)@ + b);
    Ok(())
}

fn put_credential(out: &mut Vec<u8>, text: &Option<String>)
    ensures
        final(out)@ == old(out)@ + (seq![(text_bytes(*text).len() % 256) as u8] + text_bytes(
            *text,
        )),
{
    match text {
        Some(t) => {
            let b: &[u8] = t.as_str().as_bytes();
            out.push((b.len() % 256) as u8);
            put_bytes(out, b);
        },
        None => {
            out.push(0);
        },
    }
    assert(out@ =~= old(out)@ + (seq![(text_bytes(*text).len() % 256) as u8] + text_bytes(*text)));
}

fn text_len(text: &Option<String>) -> (n: usize)
    ensures
        n == text_bytes(*text).len(),
{
    match text {
        Some(t) => t.as_str().as_bytes().len(),
        None => 0,
    }
}

impl Socks5Handshake {
    /// Starts a handshake: what to send first.
    pub fn start(purpose: Purpose, username: Option<String>, password: Option<String>) -> (s: (
        Socks5Handshake,
        Vec<u8>,
    ))
        ensures
            s.0 == (Socks5Handshake {
                purpose,
                username,
                password,
                phase: Phase::Method,
                relay: None,
            }),
            s.1@ == method_offer(username is Some),
    {
        let offer: Vec<u8> = if username.is_some() {
            vec![SOCKS5_VERSION, 2u8, SOCKS5_NO_AUTH, SOCKS5_USER_PASS_AUTH]
        } else {
            vec![SOCKS5_VERSION, 1u8, SOCKS5_NO_AUTH]
        };
        assert(offer@ =~= method_offer(username is Some));
        (
            Socks5Handshake {
                purpose,
                username,
                password,
                phase: Phase::Method,
                relay: None,
            },
            offer,
        )
    }

    /// How many bytes to read next; none once the handshake is over.
    pub fn want(&self) -> (n: usize)
        ensures
            n as nat == phase_len(self.phase),
    {
        match self.phase {
            Phase::Method | Phase::Auth => 2,
            Phase::ReplyHead => 4,
            Phase::Bound4 => 6,
            Phase::Bound6 => 18,
            Phase::BoundNameLen => 1,
            Phase::BoundName(n) => n as usize + 2,
            Phase::Done => 0,
        }
    }

    /// Takes what the proxy sent, and says what to send next.
    pub fn on_received(&mut self, r: &[u8]) -> (res: Result<Vec<u8>, SocksError>)
        requires
            old(self).phase != Phase::Done,
            r@.len() == phase_len(old(self).phase),
        ensures
            final(self).purpose == old(self).purpose,
            final(self).username == old(self).username,
            final(self).password == old(self).password,
            match (
                res,
                next_step(
                    old(self).purpose,
                    old(self).username,
                    old(self).password,
                    old(self).phase,
                    r@,
                ),
            ) {
                (Ok(send), Ok((phase, bytes))) => send@ == bytes && final(self).phase == phase,
                (Err(e), Err(f)) => e == f && final(self).phase == old(self).phase,
                _ => false,
            },
            final(self).relay == if bound_addr(old(self).phase, r@) is Some {
                bound_addr(old(self).phase, r@)
            } else {
                old(self).relay
            },
    {
        let mut out: Vec<u8> = Vec::new();
        assert(out@ =~= Seq::empty());
        match self.phase {
            Phase::Method => {
                if r[0] != SOCKS5_VERSION {
                    return Err(SocksError::Version);
                }
                if r[1] == SOCKS5_NO_ACCEPTABLE {
                    return Err(SocksError::NoAcceptableMethod);
                }
                if r[1] == SOCKS5_USER_PASS_AUTH {
                    let strict: bool = matches!(self.purpose, Purpose::Connect(_));
                    if strict && (text_len(&self.username) > 255 || text_len(&self.password) > 255) {
                        return Err(SocksError::CredentialsTooLong);
                    }
                    out.push(1);
                    put_credential(&mut out, &self.username);
                    put_credential(&mut out, &self.password);
                    assert(out@ =~= credentials(
                        text_bytes(self.username),
                        text_bytes(self.password),
                    ));
                    self.phase = Phase::Auth;
                } else {
                    match put_request(&mut out, &self.purpose) {
                        Ok(_) => {},
                        Err(e) => {
                            return Err(e);
                        },
                    }
                    assert(out@ =~= request_bytes(self.purpose).unwrap());
                    self.phase = Phase::ReplyHead;
                }
            },
            Phase::Auth => {
                if r[1] != 0 {
                    return Err(SocksError::AuthenticationFailed);
                }
                match put_request(&mut out, &self.purpose) {
                    Ok(_) => {},
                    Err(e) => {
                        return Err(e);
                    },
                }
                assert(out@ =~= request_bytes(self.purpose).unwrap());
                self.phase = Phase::ReplyHead;
            },
            Phase::ReplyHead => {
                if r[0] != SOCKS5_VERSION {
                    return Err(SocksError::ReplyVersion);
                }
                if r[1] != 0 {
                    return Err(SocksError::Refused(r[1]));
                }
                let named: bool = matches!(self.purpose, Purpose::Connect(_));
                self.phase =
                if r[3] == SOCKS5_ATYP_IPV4 {
                    Phase::Bound4
                } else if r[3] == SOCKS5_ATYP_IPV6 {
                    Phase::Bound6
                } else if r[3] == SOCKS5_ATYP_DOMAIN && named {
                    Phase::BoundNameLen
                } else {
                    return Err(SocksError::UnknownAddressType(r[3]));
                };
            },
            Phase::Bound4 => {
                self.relay =
                Some(SocketAddr { ip: IpAddr::V4(read_u32(r, 0)), port: read_u16(r, 4) });
                self.phase = Phase::Done;
            },
            Phase::Bound6 => {
                self.relay =
                Some(SocketAddr { ip: IpAddr::V6(read_u128(r, 0)), port: read_u16(r, 16) });
                self.phase = Phase::Done;
            },
            Phase::BoundNameLen => {
                self.phase = Phase::BoundName(r[0]);
            },
            Phase::BoundName(_) | Phase::Done => {
                self.phase = Phase::Done;
            },
        }
        Ok(out)
    }
}

/// Where datagrams go: an unspecified address stands for that of the proxy itself.
pub fn effective_relay(relay: SocketAddr, proxy: IpAddr) -> (addr: SocketAddr)
    ensures
        addr == if relay.ip == IpAddr::V4(0) || relay.ip == IpAddr::V6(0) {
            SocketAddr { ip: proxy, port: relay.port }
        } else {
            relay
        },
{
    let unspecified: bool = match relay.ip {
        IpAddr::V4(v) => v == 0,
        IpAddr::V6(v) => v == 0,
    };
    if unspecified {
        SocketAddr { ip: proxy, port: relay.port }
    } else {
        relay
    }
}

// ---- SOCKS4 ----

/// The SOCKS4 request: a name follows where the proxy is to resolve it (4a); plain SOCKS4
/// takes the address that the name was resolved to.
pub open spec fn socks4_bytes(ip: u32, port: u16, name: Option<Seq<u8>>) -> Seq<u8> {
    seq![4u8, 1u8] + be_bytes(port as nat, 2) + be_bytes(ip as nat, 4) + seq![0u8] + match name {
        Some(n) => n + seq![0u8],
        None => Seq::empty(),
    }
}

/// Whether a name has to be resolved before SOCKS4 can ask for it.
pub fn needs_resolving(version: SocksVersion, target: &Target) -> (yes: bool)
    ensures
        yes == (version == SocksVersion::V4 && target is Domain),
{
    match target {
        Target::Domain(_, _) => matches!(version, SocksVersion::V4),
        Target::Socket(_) => false,
    }
}

/// The SOCKS4 or 4a request for a target; `resolved` is what a name resolves to, where that
/// is needed.
pub fn socks4_request(version: SocksVersion, target: &Target, resolved: Option<SocketAddr>) -> (res:
    Result<Vec<u8>, SocksError>)
    requires
        version != SocksVersion::V5,
        (version == SocksVersion::V4 && target is Domain) ==> resolved is Some,
    ensures
        match target {
            Target::Domain(host, port) => if version == SocksVersion::V4a {
                res matches Ok(b) && b@ == socks4_bytes(1, *port, Some(encode_utf8(host@)))
            } else {
                match resolved.unwrap().ip {
                    IpAddr::V4(v) => res matches Ok(b) && b@ == socks4_bytes(
                        v,
                        resolved.unwrap().port,
                        None,
                    ),
                    IpAddr::V6(_) => res matches Err(e) && e == SocksError::Ipv6Target,
                }
            },
            Target::Socket(addr) => match addr.ip {
                IpAddr::V4(v) => res matches Ok(b) && b@ == socks4_bytes(v, addr.port, None),
                IpAddr::V6(_) => res matches Err(e) && e == SocksError::Ipv6Target,
            },
        },
{
    let (ip, port, name): (IpAddr, u16, Option<&String>) = match target {
        Target::Socket(addr) => (addr.ip, addr.port, None),
        Target::Domain(host, port) => {
            if let SocksVersion::V4a = version {
                (IpAddr::V4(1), *port, Some(host))
            } else {
                let addr: SocketAddr = resolved.unwrap();
                (addr.ip, addr.port, None)
            }
        },
    };
    let v: u32 = match ip {
        IpAddr::V4(v) => v,
        IpAddr::V6(_) => {
            return Err(SocksError::Ipv6Target);
        },
    };
    let mut out: Vec<u8> = vec![4u8, 1u8];
    put_u16(&mut out, port);
    put_u32(&mut out, v);
    out.push(0);
    match name {
        Some(host) => {
            put_bytes(&mut out, host.as_str().as_bytes());
            out.push(0);
            assert(out@ =~= socks4_bytes(v, port, Some(encode_utf8(host@))));
        },
        None => {
            assert(out@ =~= socks4_bytes(v, port, None));
        },
    }
    Ok(out)
}

/// Takes the eight bytes of a SOCKS4 answer.
pub fn socks4_reply(resp: &[u8]) -> (res: Result<(), SocksError>)
    requires
        resp@.len() == 8,
    ensures
        res == if resp@[0] != 0 {
            Err::<(), SocksError>(SocksError::Socks4Version(resp@[0]))
        } else if resp@[1] != SOCKS4_REP_SUCCESS {
            Err::<(), SocksError>(SocksError::Refused(resp@[1]))
        } else {
            Ok::<(), SocksError>(())
        },
{
    if resp[0] != 0 {
        return Err(SocksError::Socks4Version(resp[0]));
    }
    if resp[1] != SOCKS4_REP_SUCCESS {
        return Err(SocksError::Refused(resp[1]));
    }
    Ok(())
}

// ---- datagrams ----

/// Why a datagram cannot be read.
#[derive(Clone, Copy, Debug, PartialEq, Eq, Structural)]
pub enum SocksUdpError {
    TooShort,
    Address(SocksAddrError),
}

/// A datagram to or from a target.
pub open spec fn udp_datagram(target: Target, data: Seq<u8>) -> Seq<u8> {
    seq![0u8, 0u8, 0u8] + socks_addr(target) + data
}

/// Where the data of a datagram starts.
pub open spec fn udp_data_at(s: Seq<u8>) -> Result<nat, SocksUdpError> {
    if s.len() < 4 {
        Err(SocksUdpError::TooShort)
    } else {
        match socks_addr_len(s.skip(3)) {
            Ok(n) => Ok(3 + n),
            Err(e) => Err(SocksUdpError::Address(e)),
        }
    }
}

/// The data of a datagram is what was put into it.
pub proof fn udp_data_back(target: Target, data: Seq<u8>)
    requires
        readable_addr(target),
    ensures
        udp_data_at(udp_datagram(target, data)) matches Ok(n) && udp_datagram(target, data).skip(
            n as int,
        ) == data,
{
    let s = udp_datagram(target, data);
    assert(s.skip(3) =~= socks_addr(target) + data);
    socks_addr_read_back(target, data);
    assert(s.skip(3 + socks_addr(target).len() as int) =~= data);
}

/// Wraps data for a target.
pub fn build_udp_datagram(target: &Target, data: &[u8]) -> (out: Vec<u8>)
    ensures
        out@ == udp_datagram(*target, data@),
{
    let mut out: Vec<u8> = vec![0u8, 0u8, 0u8];
    put_socks_addr(&mut out, target);
    put_bytes(&mut out, data);
    assert(out@ =~= udp_datagram(*target, data@));
    out
}

/// The data of a datagram.
pub fn socks5_udp_strip_header(buf: &[u8]) -> (res: Result<&[u8], SocksUdpError>)
    ensures
        match (res, udp_data_at(buf@)) {
            (Ok(d), Ok(n)) => d@ == buf@.skip(n as int),
            (Err(e), Err(f)) => e == f,
            _ => false,
        },
{
    if buf.len() < 4 {
        return Err(SocksUdpError::TooShort);
    }
    match measure_socks_addr(buf, 3) {
        Ok(n) => {
            let d: &[u8] = &buf[3 + n..buf.len()];
            assert(d@ =~= buf@.skip(3 + n));
            Ok(d)
        },
        Err(e) => Err(SocksUdpError::Address(e)),
    }
}

// ---- the outbound ----

/// A SOCKS client.
pub struct SocksOutbound<R> {
    pub config: SocksOutboundConfig,
    pub version: SocksVersion,
    pub routing_mark: u32,
    pub resolver: Option<R>,
}

impl<R> SocksOutbound<R> {
    /// A client for the settings, unless they name an unknown version.
    pub fn new(config: SocksOutboundConfig) -> (res: Result<Self, ConfigError>)
        ensures
            match (res, socks_version(config.version)) {
                (Ok(o), Some(v)) => o == (SocksOutbound {
                    config,
                    version: v,
                    routing_mark: 0,
                    resolver: None::<R>,
                }),
                (Err(e), None) => e == ConfigError::SocksVersion,
                _ => false,
            },
    {
        match config.parsed_version() {
            Ok(version) => Ok(SocksOutbound { config, version, routing_mark: 0, resolver: None }),
            Err(e) => Err(e),
        }
    }

    pub fn with_resolver(self, resolver: R) -> (o: Self)
        ensures
            o == (SocksOutbound { resolver: Some(resolver), ..self }),
    {
        let mut o = self;
        o.resolver = Some(resolver);
        o
    }

    pub fn with_mark(self, mark: u32) -> (o: Self)
        ensures
            o == (SocksOutbound { routing_mark: mark, ..self }),
    {
        let mut o = self;
        o.routing_mark = mark;
        o
    }

    /// Whether datagrams are relayed. SOCKS4 drops them.
    pub fn relays_udp(&self) -> (yes: bool)
        ensures
            yes == (self.version == SocksVersion::V5),
    {
        matches!(self.version, SocksVersion::V5)
    }

    pub fn status(&self) -> (s: OutboundStatus)
        ensures
            s.name@ == self.config.tag@,
            s.kind@ == match self.version {
                SocksVersion::V5 => "SOCKS5"@,
                SocksVersion::V4a => "SOCKS4a"@,
                SocksVersion::V4 => "SOCKS4"@,
            },
            s.now is None,
            s.all@.len() == 0,
            s.history@.len() == 0,
    {
        let kind: &str = match self.version {
            SocksVersion::V5 => "SOCKS5",
            SocksVersion::V4a => "SOCKS4a",
            SocksVersion::V4 => "SOCKS4",
        };
        OutboundStatus::leaf(&self.config.tag, kind)
    }
}

} // verus!
