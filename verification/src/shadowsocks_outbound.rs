//! A Shadowsocks outbound: its key, its ways to the server, and its datagrams.

use crate::config::{ShadowsocksOutboundConfig, ShadowsocksTransportConfig};
use crate::crypto::{can_open, TAG_LEN};
use crate::encoding::{base64_decode, base64_standard, trim, trimmed};
use crate::net::Target;
use crate::random::random_bytes;
use crate::shadowsocks::{
    fresh, head_fits, method_2022, method_aead, method_key_len, named_method, open_stream, ss_fits,
    ss_opened, ss_sealed, stream_head, tag_len, AeadCipher, Method, SsError,
    SsReader,
};
use crate::socks_addr::{
    encode_target, measure_socks_addr, readable_addr, socks_addr, socks_addr_len,
    socks_addr_read_back,
};
use crate::status::OutboundStatus;
use crate::wire::{be_value, copy_range, put_bytes, read_u64};
use vstd::prelude::*;

verus! {

/// How a session key comes from the master key and a salt.
#[derive(Clone, Copy, Debug, PartialEq, Eq, Structural)]
pub enum Kdf {
    /// BLAKE3 key derivation, of the 2022 edition.
    Blake3Session,
    /// HKDF with SHA-1.
    HkdfSha1,
}

/// A session key to derive.
pub struct SubkeyRequest {
    pub kdf: Kdf,
    pub master: Vec<u8>,
    pub salt: Vec<u8>,
    pub key_len: usize,
}

/// The ways to the server.
#[derive(Clone, Copy, Debug, PartialEq, Eq, Structural)]
pub enum TcpRoute {
    Mux,
    Xhttp,
    Ws,
    Grpc,
    Tcp,
}

/// A Shadowsocks client.
pub struct ShadowsocksOutbound<R> {
    pub config: ShadowsocksOutboundConfig,
    pub method: Method,
    /// The master key. Those of the older methods are derived from the password by the caller.
    pub key_material: Option<Vec<u8>>,
    pub routing_mark: u32,
    /// Whether streams share connections.
    pub mux: bool,
    pub resolver: Option<R>,
}

/// What opens a stream.
pub enum Opened {
    /// Bytes to send first; the stream goes on as it is.
    Raw(Vec<u8>),
    /// Bytes to send first; the stream goes on in chunks.
    Framed(Vec<u8>, AeadCipher),
}

/// The key that settings of the 2022 edition hold.
pub open spec fn preshared_key(password: Seq<char>) -> Option<Seq<u8>> {
    base64_standard(trimmed(password))
}

/// The way to the server for a configuration.
pub open spec fn route_of(mux: bool, transport: Option<ShadowsocksTransportConfig>) -> TcpRoute {
    if mux {
        TcpRoute::Mux
    } else {
        match transport {
            Some(ShadowsocksTransportConfig::Xhttp) => TcpRoute::Xhttp,
            Some(ShadowsocksTransportConfig::Ws) => TcpRoute::Ws,
            Some(ShadowsocksTransportConfig::Grpc) => TcpRoute::Grpc,
            None => TcpRoute::Tcp,
        }
    }
}

/// How session keys of a method are derived.
pub open spec fn method_kdf(m: Method) -> Kdf {
    if method_2022(m) {
        Kdf::Blake3Session
    } else {
        Kdf::HkdfSha1
    }
}

impl<R> ShadowsocksOutbound<R> {
    pub open spec fn wf(&self) -> bool {
        self.key_material matches Some(k) ==> k@.len() == method_key_len(self.method)
    }

    /// A client for the settings.
    pub fn new(config: ShadowsocksOutboundConfig) -> (res: Result<Self, SsError>)
        ensures
            match (res, named_method(config.method@)) {
                (Err(e), None) => e == SsError::UnknownMethod,
                (Ok(o), Some(m)) => o.wf() && o.config == config && o.method == m && o.routing_mark
                    == 0 && o.resolver is None && o.mux == (config.multiplex matches Some(c)
                    && c.enabled) && if method_2022(m) {
                    o.key_material matches Some(k) && preshared_key(config.password@) == Some(k@)
                } else if m == Method::Plain {
                    o.key_material matches Some(k) && k@.len() == 0
                } else {
                    o.key_material is None
                },
                (Err(e), Some(m)) => method_2022(m) && match preshared_key(config.password@) {
                    None => e == SsError::KeyEncoding,
                    Some(k) => k.len() != method_key_len(m) && (e matches SsError::KeyLength(n) && n
                        == k.len()),
                },
                _ => false,
            },
    {
        Self::new_with_resolver(config, None)
    }

    /// A client for the settings that resolves the server's name with `resolver`.
    pub fn new_with_resolver(config: ShadowsocksOutboundConfig, resolver: Option<R>) -> (res: Result<
        Self,
        SsError,
    >)
        ensures
            match (res, named_method(config.method@)) {
                (Err(e), None) => e == SsError::UnknownMethod,
                (Ok(o), Some(m)) => o.wf() && o.config == config && o.method == m && o.routing_mark
                    == 0 && o.resolver == resolver && o.mux == (config.multiplex matches Some(c)
                    && c.enabled) && if method_2022(m) {
                    o.key_material matches Some(k) && preshared_key(config.password@) == Some(k@)
                } else if m == Method::Plain {
                    o.key_material matches Some(k) && k@.len() == 0
                } else {
                    o.key_material is None
                },
                (Err(e), Some(m)) => method_2022(m) && match preshared_key(config.password@) {
                    None => e == SsError::KeyEncoding,
                    Some(k) => k.len() != method_key_len(m) && (e matches SsError::KeyLength(n) && n
                        == k.len()),
                },
                _ => false,
            },
    {
        let method: Method = match Method::named(&config.method) {
            Ok(m) => m,
            Err(e) => {
                return Err(e);
            },
        };
        let key_material: Option<Vec<u8>> = if method.is_2022() {
            let text = trim(&config.password);
            let psk: Vec<u8> = match base64_decode(&text) {
                Some(k) => k,
                None => {
                    return Err(SsError::KeyEncoding);
                },
            };
            if psk.len() != method.key_len() {
                return Err(SsError::KeyLength(psk.len()));
            }
            Some(psk)
        } else {
            match method {
                Method::Plain => Some(Vec::new()),
                _ => None,
            }
        };
        let mux: bool = match &config.multiplex {
            Some(m) => m.enabled,
            None => false,
        };
        Ok(ShadowsocksOutbound { config, method, key_material, routing_mark: 0, mux, resolver })
    }

    pub fn with_mark(self, mark: u32) -> (o: Self)
        ensures
            o == (ShadowsocksOutbound { routing_mark: mark, ..self }),
    {
        let mut o = self;
        o.routing_mark = mark;
        o
    }

    /// Sets the master key that was derived from the password.
    pub fn with_key(self, key: Vec<u8>) -> (o: Self)
        requires
            key@.len() == method_key_len(self.method),
        ensures
            o == (ShadowsocksOutbound { key_material: Some(key), ..self }),
            o.wf(),
    {
        let mut o = self;
        o.key_material = Some(key);
        o
    }

    /// A fresh salt.
    pub fn random_salt(&self) -> (salt: Vec<u8>)
        ensures
            salt@.len() == method_key_len(self.method),
    {
        random_bytes(self.method.salt_len())
    }

    /// What to derive the session key of a salt from.
    pub fn derive_subkey(&self, salt: &[u8]) -> (req: SubkeyRequest)
        requires
            self.key_material is Some,
        ensures
            req.kdf == method_kdf(self.method),
            self.key_material matches Some(k) && req.master@ == k@,
            req.salt@ == salt@,
            req.key_len as nat == method_key_len(self.method),
    {
        let kdf: Kdf = if self.method.is_2022() {
            Kdf::Blake3Session
        } else {
            Kdf::HkdfSha1
        };
        let master: Vec<u8> = match &self.key_material {
            Some(k) => copy_range(k, 0, k.len()),
            None => Vec::new(),
        };
        let copy: Vec<u8> = copy_range(salt, 0, salt.len());
        assert(copy@ =~= salt@);
        assert(self.key_material matches Some(k) && master@ =~= k@);
        SubkeyRequest { kdf, master, salt: copy, key_len: self.method.key_len() }
    }

    /// The way to the server: sharing connections comes first.
    pub fn tcp_route(&self) -> (route: TcpRoute)
        ensures
            route == route_of(self.mux, self.config.transport),
    {
        if self.mux {
            return TcpRoute::Mux;
        }
        match self.config.transport {
            Some(ShadowsocksTransportConfig::Xhttp) => TcpRoute::Xhttp,
            Some(ShadowsocksTransportConfig::Ws) => TcpRoute::Ws,
            Some(ShadowsocksTransportConfig::Grpc) => TcpRoute::Grpc,
            None => TcpRoute::Tcp,
        }
    }

    /// What opens a stream to a target. The plain method sends the bare address, unless the
    /// stream shares a connection; over TCP it goes on in chunks all the same.
    pub fn first_flight(
        &self,
        target: &Target,
        subkey: Vec<u8>,
        salt: &[u8],
        now: u64,
        padding: &[u8],
    ) -> (res: Result<Opened, SsError>)
        requires
            subkey@.len() == method_key_len(self.method),
            socks_addr(*target).len() + padding@.len() + 2 <= usize::MAX,
        ensures
            ({
                let route = route_of(self.mux, self.config.transport);
                if self.method == Method::Plain && route != TcpRoute::Mux {
                    if route == TcpRoute::Tcp {
                        res matches Ok(Opened::Framed(out, enc)) && out@ == socks_addr(*target)
                            && enc.wf() && enc.method == Method::Plain && enc.counter == 0
                    } else {
                        res matches Ok(Opened::Raw(out)) && out@ == socks_addr(*target)
                    }
                } else if !head_fits(self.method, socks_addr(*target), padding@) {
                    res matches Err(e) && e == SsError::Seal
                } else {
                    res matches Ok(Opened::Framed(out, enc)) && out@ == stream_head(
                        self.method,
                        subkey@,
                        salt@,
                        socks_addr(*target),
                        now,
                        padding@,
                    ) && enc.wf() && enc.method == self.method && enc.key@ == subkey@
                        && enc.counter == 2
                }
            }),
    {
        let addr: Vec<u8> = encode_target(target);
        let route: TcpRoute = self.tcp_route();
        let plain: bool = matches!(self.method, Method::Plain);
        if plain && !matches!(route, TcpRoute::Mux) {
            if matches!(route, TcpRoute::Tcp) {
                return Ok(Opened::Framed(addr, AeadCipher::new(Method::Plain, Vec::new())));
            }
            return Ok(Opened::Raw(addr));
        }
        match open_stream(self.method, subkey, salt, &addr, now, padding) {
            Ok((out, enc)) => Ok(Opened::Framed(out, enc)),
            Err(e) => Err(e),
        }
    }

    /// What reads the response to a request with the given salt. Only a bare TCP connection has
    /// the age of the response checked.
    pub fn response_reader(&self, salt: &[u8]) -> (r: SsReader)
        ensures
            r.wf(),
            fresh(r),
            r.method == self.method,
            r.salt_seq() == if method_2022(self.method) {
                Some(salt@)
            } else {
                None
            },
            r.check_time == (route_of(self.mux, self.config.transport) == TcpRoute::Tcp),
    {
        let check_time: bool = matches!(self.tcp_route(), TcpRoute::Tcp);
        SsReader::new(self.method, salt, check_time)
    }

    pub fn status(&self) -> (s: OutboundStatus)
        ensures
            s.name@ == self.config.tag@,
            s.kind@ == "Shadowsocks"@,
            s.now is None,
            s.all@.len() == 0,
            s.history@.len() == 0,
    {
        OutboundStatus::leaf(&self.config.tag, "Shadowsocks")
    }
}

// ---- datagrams ----

/// The numbers of a UDP session. Only the 2022 edition sends them.
#[derive(Clone, Copy, Debug, PartialEq, Eq, Structural)]
pub struct SsUdpSession {
    pub session_id: u64,
    pub packet_id: u64,
}

/// A datagram of the 2022 edition that is to be sealed.
pub struct Datagram2022 {
    /// Whether the header is encrypted with AES; the other method seals it with the body.
    pub aes: bool,
    pub session_id: u64,
    pub packet_id: u64,
    pub addr: Vec<u8>,
    pub data: Vec<u8>,
}

/// A datagram of the older methods: the salt and the sealed address and data.
pub open spec fn udp_packet(
    m: Method,
    key: Seq<u8>,
    salt: Seq<u8>,
    target: Target,
    data: Seq<u8>,
) -> Seq<u8> {
    if m == Method::Plain {
        socks_addr(target) + data
    } else {
        salt + ss_sealed(m, key, 0, socks_addr(target) + data)
    }
}

/// The data behind an address.
pub open spec fn behind_addr(s: Seq<u8>) -> Option<Seq<u8>> {
    match socks_addr_len(s) {
        Ok(n) => Some(s.skip(n as int)),
        Err(_) => None,
    }
}

/// The data of a datagram.
pub open spec fn udp_data(m: Method, key: Seq<u8>, packet: Seq<u8>) -> Option<Seq<u8>> {
    if m == Method::Plain {
        behind_addr(packet)
    } else if packet.len() <= method_key_len(m) + TAG_LEN {
        None
    } else {
        match ss_opened(m, key, 0, packet.skip(method_key_len(m) as int)) {
            Some(body) => behind_addr(body),
            None => None,
        }
    }
}

impl SsUdpSession {
    /// A session; `random` numbers one of the 2022 edition.
    pub fn new(method: Method, random: &[u8]) -> (s: SsUdpSession)
        requires
            random@.len() == 8,
        ensures
            s == if method_2022(method) {
                SsUdpSession { session_id: be_value(random@) as u64, packet_id: 1 }
            } else {
                SsUdpSession { session_id: 0, packet_id: 0 }
            },
    {
        if method.is_2022() {
            assert(random@.subrange(0, 8) =~= random@);
            SsUdpSession { session_id: read_u64(random, 0), packet_id: 1 }
        } else {
            SsUdpSession { session_id: 0, packet_id: 0 }
        }
    }

    /// The next datagram of the 2022 edition. Each has the number after that of the one before.
    pub fn next_2022(&mut self, method: Method, target: &Target, data: &[u8]) -> (d: Datagram2022)
        requires
            method_2022(method),
            old(self).packet_id < u64::MAX,
        ensures
            d.aes == (method != Method::Blake3ChaCha20Poly1305),
            d.session_id == old(self).session_id,
            d.packet_id == old(self).packet_id,
            d.addr@ == socks_addr(*target),
            d.data@ == data@,
            final(self).session_id == old(self).session_id,
            final(self).packet_id == old(self).packet_id + 1,
    {
        let aes: bool = !matches!(method, Method::Blake3ChaCha20Poly1305);
        let copy: Vec<u8> = copy_range(data, 0, data.len());
        assert(copy@ =~= data@);
        let d = Datagram2022 {
            aes,
            session_id: self.session_id,
            packet_id: self.packet_id,
            addr: encode_target(target),
            data: copy,
        };
        self.packet_id = self.packet_id + 1;
        d
    }
}

/// Makes a datagram of the older methods.
pub fn seal_udp(method: Method, subkey: Vec<u8>, salt: &[u8], target: &Target, data: &[u8]) -> (res:
    Result<Vec<u8>, SsError>)
    requires
        !method_2022(method),
        subkey@.len() == method_key_len(method),
    ensures
        match res {
            Ok(out) => out@ == udp_packet(method, subkey@, salt@, *target, data@) && out@.len() == (
            if method == Method::Plain {
                0
            } else {
                salt@.len()
            }) + socks_addr(*target).len() + data@.len() + tag_len(method),
            Err(e) => e == SsError::Seal && !ss_fits(
                method,
                (socks_addr(*target) + data@).len(),
            ),
        },
        method == Method::Plain ==> res is Ok,
{
    let mut body: Vec<u8> = encode_target(target);
    put_bytes(&mut body, data);
    if matches!(method, Method::Plain) {
        return Ok(body);
    }
    let ghost key = subkey@;
    let mut cipher: AeadCipher = AeadCipher::new(method, subkey);
    match cipher.seal(&body) {
        Ok(text) => {
            let mut out: Vec<u8> = copy_range(salt, 0, salt.len());
            put_bytes(&mut out, &text);
            assert(out@ =~= udp_packet(method, key, salt@, *target, data@));
            Ok(out)
        },
        Err(e) => Err(e),
    }
}

/// The salt of a datagram, if it is long enough to hold more.
pub fn udp_salt(method: Method, packet: &[u8]) -> (salt: Option<Vec<u8>>)
    ensures
        if packet@.len() <= method_key_len(method) + TAG_LEN {
            salt is None
        } else {
            salt matches Some(s) && s@ == packet@.take(method_key_len(method) as int)
        },
{
    let n: usize = method.salt_len();
    if packet.len() <= n + TAG_LEN {
        return None;
    }
    let salt: Vec<u8> = copy_range(packet, 0, n);
    assert(salt@ =~= packet@.take(n as int));
    Some(salt)
}

fn strip_addr(body: &[u8]) -> (data: Option<Vec<u8>>)
    ensures
        match (data, behind_addr(body@)) {
            (Some(a), Some(b)) => a@ == b,
            (None, None) => true,
            _ => false,
        },
{
    assert(body@.skip(0) =~= body@);
    match measure_socks_addr(body, 0) {
        Ok(n) => {
            let data: Vec<u8> = copy_range(body, n, body.len());
            assert(data@ =~= body@.skip(n as int));
            Some(data)
        },
        Err(_) => None,
    }
}

/// Opens a datagram of the older methods, given the session key of its salt. What was sealed
/// under that key comes out as it went in.
pub fn open_udp(method: Method, subkey: Vec<u8>, packet: &[u8]) -> (data: Option<Vec<u8>>)
    requires
        !method_2022(method),
        subkey@.len() == method_key_len(method),
    ensures
        match (data, udp_data(method, subkey@, packet@)) {
            (Some(a), Some(b)) => a@ == b,
            (None, None) => true,
            _ => false,
        },
        forall|salt: Seq<u8>, target: Target, sent: Seq<u8>|
            packet@ == #[trigger] udp_packet(method, subkey@, salt, target, sent) && salt.len()
                == method_key_len(method) && readable_addr(target) && packet@.len() == salt.len()
                + socks_addr(target).len() + sent.len() + tag_len(method) && (method_aead(
                method,
            ) matches Some(a) ==> can_open(
                a,
                (packet@.len() - salt.len()) as nat,
                0,
            )) ==> (data matches Some(d) && d@ == sent),
{
    if matches!(method, Method::Plain) {
        let data: Option<Vec<u8>> = strip_addr(packet);
        proof {
            assert forall|salt: Seq<u8>, target: Target, sent: Seq<u8>|
                packet@ == #[trigger] udp_packet(method, subkey@, salt, target, sent)
                    && readable_addr(target) implies (data matches Some(d) && d@ == sent) by {
                socks_addr_read_back(target, sent);
            }
        }
        return data;
    }
    let n: usize = method.salt_len();
    if packet.len() <= n + TAG_LEN {
        return None;
    }
    let ghost key = subkey@;
    let mut cipher: AeadCipher = AeadCipher::new(method, subkey);
    let text: &[u8] = &packet[n..packet.len()];
    assert(text@ =~= packet@.skip(n as int));
    let body: Option<Vec<u8>> = cipher.open(text);
    proof {
        assert forall|salt: Seq<u8>, target: Target, sent: Seq<u8>|
            packet@ == #[trigger] udp_packet(method, key, salt, target, sent) && salt.len() == n
                && readable_addr(target) && packet@.len() == salt.len() + socks_addr(target).len()
                + sent.len() + tag_len(method) && (method_aead(method) matches Some(a) ==> can_open(
                a,
                (packet@.len() - salt.len()) as nat,
                0,
            )) implies (body matches Some(b) && behind_addr(b@) == Some(sent)) by {
            assert(packet@.skip(n as int) =~= ss_sealed(
                method,
                key,
                0,
                socks_addr(target) + sent,
            ));
            socks_addr_read_back(target, sent);
        }
    }
    match body {
        Some(b) => strip_addr(&b),
        None => None,
    }
}

} // verus!
