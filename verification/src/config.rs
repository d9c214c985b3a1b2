//! Settings of the outbounds, as plain values.

use crate::text::{eq_ignore_case, lower_text, text_eq};
use vstd::prelude::*;

verus! {

/// The browsers whose TLS hello can be imitated.
#[derive(Clone, Copy, Debug, PartialEq, Eq, Structural)]
pub enum UtlsFingerprint {
    Chrome,
    Firefox,
    Safari,
    Ios,
    Android,
    Edge,
    Browser360,
    Qq,
    Go,
    Random,
}

/// Imitation of a browser's TLS hello.
#[derive(Clone, Debug, PartialEq, Eq)]
pub struct UtlsConfig {
    pub enabled: bool,
    pub fingerprint: UtlsFingerprint,
}

/// Encrypted Client Hello.
#[derive(Clone, Debug, Default, PartialEq, Eq)]
pub struct OutboundECHOptions {
    pub enabled: bool,
    /// The configuration list, as lines of PEM.
    pub config: Vec<String>,
    /// A file that holds the list.
    pub config_path: Option<String>,
    /// The name to ask the DNS about, where it is not the server's own.
    pub query_server_name: Option<String>,
}

/// TLS settings of an outbound.
#[derive(Clone, Debug, Default, PartialEq, Eq)]
pub struct TlsConfig {
    pub enabled: bool,
    pub server_name: Option<String>,
    pub insecure: bool,
    pub alpn: Vec<String>,
    pub certificate: Vec<String>,
    pub certificate_path: Option<String>,
    pub ca_path: Option<String>,
    pub utls: Option<UtlsConfig>,
    pub ech: Option<OutboundECHOptions>,
}

/// Settings of a REALITY connection.
#[derive(Clone, Debug, Default, PartialEq, Eq)]
pub struct RealityDialConfig {
    pub server: String,
    pub server_name: Option<String>,
    pub public_key: String,
    pub short_id: String,
    pub alpn: Vec<String>,
}

/// Settings of a Hysteria2 outbound. Bandwidths are in megabits per second.
#[derive(Clone, Debug, PartialEq, Eq)]
pub struct Hysteria2OutboundConfig {
    pub tag: String,
    pub server: String,
    pub server_port: u16,
    pub password: String,
    pub up_mbps: u32,
    pub down_mbps: u32,
    pub tls: TlsConfig,
}

/// Megabits per second as bits per second.
pub fn mbps_to_bps(mbps: u32) -> (bps: u64)
    ensures
        bps == mbps * 1_000_000,
{
    mbps as u64 * 1_000_000
}

/// What is wrong with settings.
#[derive(Clone, Copy, Debug, PartialEq, Eq, Structural)]
pub enum ConfigError {
    /// An unknown version of SOCKS.
    SocksVersion,
}

/// The versions of SOCKS.
#[derive(Clone, Copy, Debug, PartialEq, Eq, Structural)]
pub enum SocksVersion {
    V5,
    V4a,
    V4,
}

/// Settings of a SOCKS outbound.
#[derive(Clone, Debug, PartialEq, Eq)]
pub struct SocksOutboundConfig {
    pub tag: String,
    pub server: String,
    pub server_port: u16,
    pub version: Option<String>,
    pub username: Option<String>,
    pub password: Option<String>,
}

/// The version that a setting names; none names the newest.
pub open spec fn socks_version(version: Option<String>) -> Option<SocksVersion> {
    match version {
        None => Some(SocksVersion::V5),
        Some(v) => if v@ == "5"@ {
            Some(SocksVersion::V5)
        } else if v@ == "4a"@ {
            Some(SocksVersion::V4a)
        } else if v@ == "4"@ {
            Some(SocksVersion::V4)
        } else {
            None
        },
    }
}

impl SocksOutboundConfig {
    /// The version that the settings name.
    pub fn parsed_version(&self) -> (res: Result<SocksVersion, ConfigError>)
        ensures
            match (res, socks_version(self.version)) {
                (Ok(v), Some(w)) => v == w,
                (Err(e), None) => e == ConfigError::SocksVersion,
                _ => false,
            },
    {
        match &self.version {
            None => Ok(SocksVersion::V5),
            Some(v) => if text_eq(v, "5") {
                Ok(SocksVersion::V5)
            } else if text_eq(v, "4a") {
                Ok(SocksVersion::V4a)
            } else if text_eq(v, "4") {
                Ok(SocksVersion::V4)
            } else {
                Err(ConfigError::SocksVersion)
            },
        }
    }
}

/// Settings of stream multiplexing. Zero sets no limit.
#[derive(Clone, Debug, Default, PartialEq, Eq)]
pub struct MultiplexConfig {
    pub enabled: bool,
    pub protocol: String,
    pub max_connections: usize,
    pub max_streams: usize,
    pub padding: bool,
}

/// What carries a Shadowsocks stream instead of TCP.
#[derive(Clone, Copy, Debug, PartialEq, Eq, Structural)]
pub enum ShadowsocksTransportConfig {
    Xhttp,
    Ws,
    Grpc,
}

/// Settings of a Shadowsocks outbound.
#[derive(Clone, Debug, PartialEq, Eq)]
pub struct ShadowsocksOutboundConfig {
    pub tag: String,
    pub server: String,
    pub server_port: u16,
    pub method: String,
    pub password: String,
    pub transport: Option<ShadowsocksTransportConfig>,
    pub tls: Option<TlsConfig>,
    pub multiplex: Option<MultiplexConfig>,
}

/// Which addresses of a name are taken.
#[derive(Clone, Copy, Debug, PartialEq, Eq, Structural)]
pub enum ResolveStrategy {
    Ipv4Only,
    Ipv6Only,
    PreferIpv4,
    PreferIpv6,
}

/// Settings of an outbound without a proxy.
#[derive(Clone, Debug, PartialEq, Eq)]
pub struct DirectOutboundConfig {
    pub tag: String,
    /// The address that connections start from.
    pub bind_address: Option<String>,
    /// `happy_eyeballs` to try several addresses at a time.
    pub network_strategy: Option<String>,
    pub fallback_delay_ms: Option<u64>,
    pub domain_strategy: Option<ResolveStrategy>,
    pub connect_timeout_ms: Option<u64>,
}

/// The value of a header.
#[derive(Clone, Debug, PartialEq, Eq)]
pub enum HttpHeaderValue {
    Single(String),
}

/// Headers in the order in which they are sent.
#[derive(Clone, Debug, Default, PartialEq, Eq)]
pub struct HttpHeadersConfig(pub Vec<(String, HttpHeaderValue)>);

/// Settings of an HTTP outbound.
#[derive(Clone, Debug, PartialEq, Eq)]
pub struct HttpOutboundConfig {
    pub tag: String,
    pub server: String,
    pub server_port: u16,
    pub username: Option<String>,
    pub password: Option<String>,
    pub path: Option<String>,
    pub headers: HttpHeadersConfig,
    pub tls: TlsConfig,
}

/// A header as a pair of texts.
pub open spec fn header_pair(h: (String, HttpHeaderValue)) -> (Seq<char>, Seq<char>) {
    match h.1 {
        HttpHeaderValue::Single(v) => (h.0@, v@),
    }
}

/// Whether a header names the host.
pub open spec fn is_host_header(h: (String, HttpHeaderValue)) -> bool {
    lower_text(h.0@) == "host"@
}

/// The value of the last header that names the host.
pub open spec fn host_of(headers: Seq<(String, HttpHeaderValue)>) -> Option<Seq<char>>
    decreases headers.len(),
{
    if headers.len() == 0 {
        None
    } else if is_host_header(headers.last()) {
        Some(header_pair(headers.last()).1)
    } else {
        host_of(headers.drop_last())
    }
}

/// The headers that do not name the host.
pub open spec fn other_headers(headers: Seq<(String, HttpHeaderValue)>) -> Seq<
    (Seq<char>, Seq<char>),
>
    decreases headers.len(),
{
    if headers.len() == 0 {
        Seq::empty()
    } else if is_host_header(headers.last()) {
        other_headers(headers.drop_last())
    } else {
        other_headers(headers.drop_last()).push(header_pair(headers.last()))
    }
}

/// Headers as pairs of texts.
pub open spec fn header_pairs(headers: Seq<(String, String)>) -> Seq<(Seq<char>, Seq<char>)> {
    headers.map_values(|h: (String, String)| (h.0@, h.1@))
}

impl HttpOutboundConfig {
    /// Takes the host out of the headers; case does not matter in its name.
    pub fn take_host_and_headers(&self) -> (res: (Option<String>, Vec<(String, String)>))
        ensures
            match (res.0, host_of(self.headers.0@)) {
                (Some(h), Some(g)) => h@ == g,
                (None, None) => true,
                _ => false,
            },
            header_pairs(res.1@) == other_headers(self.headers.0@),
    {
        let headers: &Vec<(String, HttpHeaderValue)> = &self.headers.0;
        let mut host: Option<String> = None;
        let mut rest: Vec<(String, String)> = Vec::new();
        let mut i: usize = 0;
        proof {
            reveal_strlit("host");
            assert(lower_text("host"@) =~= "host"@);
            assert(header_pairs(rest@) =~= Seq::empty());
        }
        while i < headers.len()
            invariant
                i <= headers@.len(),
                headers == self.headers.0,
                lower_text("host"@) == "host"@,
                match (host, host_of(headers@.take(i as int))) {
                    (Some(h), Some(g)) => h@ == g,
                    (None, None) => true,
                    _ => false,
                },
                header_pairs(rest@) == other_headers(headers@.take(i as int)),
            decreases headers@.len() - i,
        {
            assert(headers@.take(i + 1).drop_last() =~= headers@.take(i as int));
            assert(headers@.take(i + 1).last() == headers@[i as int]);
            let value: String = match &headers[i].1 {
                HttpHeaderValue::Single(v) => v.clone(),
            };
            if eq_ignore_case(&headers[i].0, "host") {
                host = Some(value);
            } else {
                let ghost before = header_pairs(rest@);
                rest.push((headers[i].0.clone(), value));
                assert(header_pairs(rest@) =~= before.push(header_pair(headers@[i as int])));
            }
            i += 1;
        }
        assert(headers@.take(i as int) =~= headers@);
        (host, rest)
    }
}

/// Whether datagrams go through a stream.
#[derive(Clone, Copy, Debug, PartialEq, Eq, Structural)]
pub struct UdpOverTcpConfig {
    pub enabled: bool,
}

/// Settings of a Naive outbound.
#[derive(Clone, Debug, Default, PartialEq, Eq)]
pub struct NaiveOutboundConfig {
    pub tag: String,
    pub server: String,
    pub server_port: u16,
    pub username: String,
    pub password: String,
    pub extra_headers: Vec<(String, String)>,
    pub udp_over_tcp: Option<UdpOverTcpConfig>,
    pub quic: bool,
    pub quic_congestion_control: String,
    pub tls: TlsConfig,
}

/// Settings of one-time codes.
#[derive(Clone, Debug, PartialEq, Eq)]
pub struct TotpConfig {
    /// In base 32.
    pub secret: String,
    pub digits: usize,
    /// For how many seconds a code holds.
    pub step: u64,
    pub algorithm: String,
}

/// How one-time codes are made.
#[derive(Clone, Debug, PartialEq, Eq)]
pub enum TotpOption {
    /// From a secret alone; all else is as usual.
    OtpAuth { secret: String },
    Common(TotpConfig),
}

/// Settings of an SSH outbound.
#[derive(Clone, Debug, Default, PartialEq, Eq)]
pub struct SshOutboundConfig {
    pub tag: String,
    pub server: String,
    pub server_port: u16,
    pub username: String,
    pub password: Option<String>,
    /// A key in PEM, or the path of a file with one.
    pub private_key: Option<String>,
    pub private_key_passphrase: Option<String>,
    /// The keys that the server may have.
    pub host_key: Option<Vec<String>>,
    pub totp_opt: Option<TotpOption>,
}

/// Settings of a ShadowQuic outbound.
#[derive(Clone, Debug, Default, PartialEq, Eq)]
pub struct ShadowQuicOutboundConfig {
    pub tag: String,
    pub server: String,
    pub server_port: u16,
    pub password: String,
    pub username: String,
    pub server_name: String,
    pub alpn: Vec<String>,
    pub initial_mtu: u16,
    pub congestion_control: String,
    pub brutal_bandwidth: u64,
    pub zero_rtt: bool,
    pub over_stream: bool,
    pub min_mtu: u16,
    pub keep_alive_interval: u32,
    pub gso: bool,
    pub mtu_discovery: bool,
    pub blackhole_detection: bool,
}

/// Settings of a Tailscale outbound.
#[derive(Clone, Debug, Default, PartialEq, Eq)]
pub struct TailscaleOutboundConfig {
    pub tag: String,
    /// The directory in which the identity is kept.
    pub state_dir: Option<String>,
    /// Whether each start has an identity of its own.
    pub ephemeral: bool,
    pub client_name: Option<String>,
    pub hostname: Option<String>,
    pub control_url: Option<String>,
    pub auth_key: Option<String>,
}

/// Settings of an AnyTLS outbound. Times are in milliseconds.
#[derive(Clone, Debug, Default, PartialEq, Eq)]
pub struct AnyTlsOutboundConfig {
    pub tag: String,
    pub server: String,
    pub server_port: u16,
    pub password: String,
    pub idle_session_check_interval: Option<u64>,
    pub idle_session_timeout: Option<u64>,
    pub min_idle_session: u32,
    pub tls: TlsConfig,
}

} // verus!
