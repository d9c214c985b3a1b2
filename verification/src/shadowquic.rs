//! A ShadowQuic outbound.

use crate::config::ShadowQuicOutboundConfig;
use crate::ip_text::{ip_of, parse_ip};
use crate::net::{ip_octets, is_socket_text, put_ip, IpAddr, SocketAddr, Target};
use crate::status::OutboundStatus;
use crate::text::{copy_texts, text_eq, texts};
use crate::wire::put_bytes;
use vstd::prelude::*;
use vstd::utf8::encode_utf8;

verus! {

/// For how many seconds a session for datagrams may be idle.
pub const UDP_IDLE_TIMEOUT_SECS: u64 = 10;

/// An address or a name, as bytes.
#[derive(Clone, Debug, PartialEq, Eq)]
pub enum AddrOrDomain {
    V4(Vec<u8>),
    V6(Vec<u8>),
    Domain(Vec<u8>),
}

/// Where a stream or a datagram goes.
#[derive(Clone, Debug, PartialEq, Eq)]
pub struct SocksAddr {
    pub addr: AddrOrDomain,
    pub port: u16,
}

impl SocksAddr {
    /// Whether this is the address.
    pub open spec fn is_socket(self, socket: SocketAddr) -> bool {
        &&& self.port == socket.port
        &&& match socket.ip {
            IpAddr::V4(_) => self.addr matches AddrOrDomain::V4(b) && b@ == ip_octets(socket.ip),
            IpAddr::V6(_) => self.addr matches AddrOrDomain::V6(b) && b@ == ip_octets(socket.ip),
        }
    }

    /// Whether this is the name with the port.
    pub open spec fn is_domain(self, host: Seq<char>, port: u16) -> bool {
        self.port == port && (self.addr matches AddrOrDomain::Domain(b) && b@ == encode_utf8(host))
    }

    fn from_socket(socket: SocketAddr) -> (addr: SocksAddr)
        ensures
            addr.is_socket(socket),
    {
        let mut octets: Vec<u8> = Vec::new();
        put_ip(&mut octets, &socket.ip);
        assert(octets@ =~= ip_octets(socket.ip));
        SocksAddr {
            addr: match socket.ip {
                IpAddr::V4(_) => AddrOrDomain::V4(octets),
                IpAddr::V6(_) => AddrOrDomain::V6(octets),
            },
            port: socket.port,
        }
    }

    fn from_domain(host: &str, port: u16) -> (addr: SocksAddr)
        ensures
            addr.is_domain(host@, port),
    {
        let mut name: Vec<u8> = Vec::new();
        put_bytes(&mut name, host.as_bytes());
        assert(name@ =~= encode_utf8(host@));
        SocksAddr { addr: AddrOrDomain::Domain(name), port }
    }
}

/// A target as an address.
pub fn target_to_socks_addr(target: &Target) -> (addr: SocksAddr)
    ensures
        match *target {
            Target::Domain(host, port) => addr.is_domain(host@, port),
            Target::Socket(socket) => addr.is_socket(socket),
        },
{
    match target {
        Target::Domain(host, port) => SocksAddr::from_domain(host, *port),
        Target::Socket(socket) => SocksAddr::from_socket(*socket),
    }
}

/// A host and a port as an address. A host that spells an address is one, so that the server need
/// not look it up.
pub fn host_to_socks_addr(host: &str, port: u16) -> (addr: SocksAddr)
    ensures
        match ip_of(host@) {
            Some(ip) => addr.is_socket(SocketAddr { ip, port }),
            None => addr.is_domain(host@, port),
        },
{
    match parse_ip(host) {
        Some(ip) => SocksAddr::from_socket(SocketAddr { ip, port }),
        None => SocksAddr::from_domain(host, port),
    }
}

/// How a connection keeps to the speed of the network.
#[derive(Clone, Copy, Debug, PartialEq, Eq, Structural)]
pub enum CongestionControl {
    Bbr,
    Cubic,
    NewReno,
    /// At the given speed, whatever is lost.
    Brutal(u64),
}

/// The control that a name stands for; BBR where it is not known.
pub open spec fn control_of(name: Seq<char>, brutal_bandwidth: u64) -> CongestionControl {
    if name == "cubic"@ {
        CongestionControl::Cubic
    } else if name == "new-reno"@ {
        CongestionControl::NewReno
    } else if name == "brutal"@ {
        CongestionControl::Brutal(brutal_bandwidth)
    } else {
        CongestionControl::Bbr
    }
}

fn read_control(name: &str, brutal_bandwidth: u64) -> (control: CongestionControl)
    ensures
        control == control_of(name@, brutal_bandwidth),
{
    if text_eq(name, "cubic") {
        CongestionControl::Cubic
    } else if text_eq(name, "new-reno") {
        CongestionControl::NewReno
    } else if text_eq(name, "brutal") {
        CongestionControl::Brutal(brutal_bandwidth)
    } else {
        CongestionControl::Bbr
    }
}

/// What a client is made from.
#[derive(Clone, Debug)]
pub struct ShadowQuicClientCfg {
    pub username: String,
    pub password: String,
    /// The address of the server.
    pub addr: String,
    pub server_name: String,
    pub alpn: Vec<String>,
    pub initial_mtu: u16,
    pub congestion_control: CongestionControl,
    pub zero_rtt: bool,
    pub over_stream: bool,
    pub min_mtu: u16,
    pub keep_alive_interval: u32,
    pub gso: bool,
    pub mtu_discovery: bool,
    pub blackhole_detection: bool,
    /// The mark of its packets, if any.
    pub fw_mark: Option<u32>,
}

/// What a client is made from, once the server's address is known.
pub fn build_sq_config(
    config: &ShadowQuicOutboundConfig,
    addr: SocketAddr,
    routing_mark: u32,
) -> (cfg: ShadowQuicClientCfg)
    ensures
        cfg.username@ == config.username@,
        cfg.password@ == config.password@,
        is_socket_text(addr, cfg.addr@),
        cfg.server_name@ == config.server_name@,
        texts(cfg.alpn@) == texts(config.alpn@),
        cfg.initial_mtu == config.initial_mtu,
        cfg.congestion_control == control_of(config.congestion_control@, config.brutal_bandwidth),
        cfg.zero_rtt == config.zero_rtt,
        cfg.over_stream == config.over_stream,
        cfg.min_mtu == config.min_mtu,
        cfg.keep_alive_interval == config.keep_alive_interval,
        cfg.gso == config.gso,
        cfg.mtu_discovery == config.mtu_discovery,
        cfg.blackhole_detection == config.blackhole_detection,
        cfg.fw_mark == if routing_mark != 0 {
            Some(routing_mark)
        } else {
            None::<u32>
        },
{
    ShadowQuicClientCfg {
        username: config.username.clone(),
        password: config.password.clone(),
        addr: addr.to_text(),
        server_name: config.server_name.clone(),
        alpn: copy_texts(&config.alpn),
        initial_mtu: config.initial_mtu,
        congestion_control: read_control(&config.congestion_control, config.brutal_bandwidth),
        zero_rtt: config.zero_rtt,
        over_stream: config.over_stream,
        min_mtu: config.min_mtu,
        keep_alive_interval: config.keep_alive_interval,
        gso: config.gso,
        mtu_discovery: config.mtu_discovery,
        blackhole_detection: config.blackhole_detection,
        fw_mark: if routing_mark != 0 {
            Some(routing_mark)
        } else {
            None
        },
    }
}

/// The address that a session for datagrams is bound to at the server: any of the client's family.
pub fn udp_bind_addr(src: SocketAddr) -> (addr: SocksAddr)
    ensures
        addr.is_socket(
            SocketAddr {
                ip: match src.ip {
                    IpAddr::V4(_) => IpAddr::V4(0),
                    IpAddr::V6(_) => IpAddr::V6(0),
                },
                port: 0,
            },
        ),
{
    let ip: IpAddr = match src.ip {
        IpAddr::V4(_) => IpAddr::V4(0),
        IpAddr::V6(_) => IpAddr::V6(0),
    };
    SocksAddr::from_socket(SocketAddr { ip, port: 0 })
}

/// A ShadowQuic outbound; `R` is what looks names up.
pub struct ShadowQuicOutbound<R> {
    pub config: ShadowQuicOutboundConfig,
    /// The mark of its packets; zero for none.
    pub routing_mark: u32,
    pub resolver: Option<R>,
}

/// What is done for a connection.
#[derive(Clone, Copy, Debug, PartialEq, Eq, Structural)]
pub enum ConnChoice {
    /// The one that is kept is used.
    Reuse,
    /// A new one takes its place.
    Connect,
}

impl<R> ShadowQuicOutbound<R> {
    /// An outbound that leaves names to the system.
    pub fn new(config: ShadowQuicOutboundConfig) -> (o: Self)
        ensures
            o == (ShadowQuicOutbound { config, routing_mark: 0, resolver: None::<R> }),
    {
        ShadowQuicOutbound { config, routing_mark: 0, resolver: None }
    }

    /// Sets what looks names up.
    pub fn with_resolver(self, resolver: R) -> (o: Self)
        ensures
            o == (ShadowQuicOutbound { resolver: Some(resolver), ..self }),
    {
        let mut o = self;
        o.resolver = Some(resolver);
        o
    }

    /// Sets the mark of its packets.
    pub fn with_mark(self, mark: u32) -> (o: Self)
        ensures
            o == (ShadowQuicOutbound { routing_mark: mark, ..self }),
    {
        let mut o = self;
        o.routing_mark = mark;
        o
    }

    /// Whether the connection that is kept is used: `closed` says whether it has been closed, where
    /// there is one.
    pub fn prepare_conn(&self, closed: Option<bool>) -> (choice: ConnChoice)
        ensures
            choice == if closed == Some(false) {
                ConnChoice::Reuse
            } else {
                ConnChoice::Connect
            },
    {
        match closed {
            Some(false) => ConnChoice::Reuse,
            _ => ConnChoice::Connect,
        }
    }

    /// What the outbound says about itself.
    pub fn status(&self) -> (s: OutboundStatus)
        ensures
            s.name@ == self.config.tag@,
            s.kind@ == "ShadowQuic"@,
            s.now is None,
            s.all@.len() == 0,
            s.history@.len() == 0,
    {
        OutboundStatus::leaf(&self.config.tag, "ShadowQuic")
    }
}

} // verus!
