//! A Naive outbound: CONNECT over HTTP/2, with padding.

use crate::config::{header_pairs, NaiveOutboundConfig};
use crate::encoding::{base64_encode, base64_text};
use crate::net::{is_target_host, target_port, target_text, Target, TargetText};
use crate::outbound::default_status;
use crate::random::{random_below, random_bytes};
use crate::status::OutboundStatus;
use crate::text::{dec_text, push_dec, text_eq};
use vstd::prelude::*;
use vstd::utf8::encode_utf8;

verus! {

/// The port of the host that stands for datagrams in a stream.
pub const UOT_MAGIC_PORT: u16 = 443;

/// Why there is no outbound, or no tunnel.
#[derive(Clone, Copy, Debug, PartialEq, Eq, Structural)]
pub enum NaiveError {
    TlsDisabled,
    QuicUnsupported,
    CongestionControl,
    /// The server answered with this status.
    Status(u16),
    UdpDisabled,
}

/// A Naive outbound; `R` is what looks names up.
pub struct NaiveOutbound<R> {
    pub config: NaiveOutboundConfig,
    /// The mark of its packets; zero for none.
    pub routing_mark: u32,
    pub resolver: Option<R>,
}

/// Whether a congestion control is known.
pub open spec fn known_control(name: Seq<char>) -> bool {
    name == ""@ || name == "bbr"@ || name == "bbr2"@ || name == "cubic"@ || name == "reno"@
}

/// What is wrong with settings, if anything.
pub open spec fn config_fault(config: NaiveOutboundConfig) -> Option<NaiveError> {
    if !config.tls.enabled {
        Some(NaiveError::TlsDisabled)
    } else if config.quic {
        Some(NaiveError::QuicUnsupported)
    } else if !known_control(config.quic_congestion_control@) {
        Some(NaiveError::CongestionControl)
    } else {
        None
    }
}

/// Checks settings.
pub fn validate(config: &NaiveOutboundConfig) -> (res: Result<(), NaiveError>)
    ensures
        res == match config_fault(*config) {
            Some(e) => Err::<(), NaiveError>(e),
            None => Ok::<(), NaiveError>(()),
        },
{
    if !config.tls.enabled {
        return Err(NaiveError::TlsDisabled);
    }
    if config.quic {
        return Err(NaiveError::QuicUnsupported);
    }
    let cc: &str = config.quic_congestion_control.as_str();
    if text_eq(cc, "") || text_eq(cc, "bbr") || text_eq(cc, "bbr2") || text_eq(cc, "cubic")
        || text_eq(cc, "reno") {
        Ok(())
    } else {
        Err(NaiveError::CongestionControl)
    }
}

/// The characters at the start of padding: none is shorter in the code of HTTP/2 headers.
pub const PADDING_HEADER_CHARSET: [u8; 16] = [
    0x21, 0x23, 0x24, 0x28, 0x29, 0x2b, 0x3c, 0x3e, 0x3f, 0x40, 0x5b, 0x5d, 0x5e, 0x60, 0x7b, 0x7d,
];

/// The padding for the given choices: sixteen characters of the set, then tildes.
pub open spec fn padding_of(picks: Seq<u8>, len: nat) -> Seq<char> {
    Seq::new(
        len,
        |i: int|
            if i < 16 {
                PADDING_HEADER_CHARSET@[picks[i] as int % 16] as char
            } else {
                '~'
            },
    )
}

/// Makes padding out of choices.
pub fn padding_from(picks: &[u8], len: usize) -> (text: String)
    requires
        picks@.len() == 16,
    ensures
        text@ == padding_of(picks@, len as nat),
{
    let mut text: String = String::new();
    let mut i: usize = 0;
    while i < len
        invariant
            i <= len,
            picks@.len() == 16,
            text@ == padding_of(picks@, i as nat),
        decreases len - i,
    {
        if i < 16 {
            let k: usize = (picks[i] % 16) as usize;
            text.push(PADDING_HEADER_CHARSET[k] as char);
        } else {
            text.push('~');
        }
        assert(text@ =~= padding_of(picks@, i as nat + 1));
        i += 1;
    }
    assert(text@ =~= padding_of(picks@, len as nat));
    text
}

/// Makes padding of 30 to 61 characters.
pub fn generate_padding_header() -> (text: String)
    ensures
        30 <= text@.len() <= 61,
        exists|picks: Seq<u8>|
            picks.len() == 16 && text@ == #[trigger] padding_of(picks, text@.len()),
{
    let len: usize = random_below(30, 62);
    let picks: Vec<u8> = random_bytes(16);
    let text: String = padding_from(&picks, len);
    assert(text@ == padding_of(picks@, text@.len()));
    text
}

/// The credentials.
pub open spec fn basic_auth(username: Seq<char>, password: Seq<char>) -> Seq<char> {
    "Basic "@ + base64_text(encode_utf8(username.push(':') + password))
}

/// Makes the credentials.
pub fn build_basic_auth_value(username: &str, password: &str) -> (value: String)
    ensures
        value@ == basic_auth(username@, password@),
{
    let mut pair: String = username.to_string();
    pair.push(':');
    pair.append(password);
    let mut value: String = "Basic ".to_string();
    value.append(&base64_encode(pair.as_str().as_bytes()));
    value
}

/// A request for a tunnel.
#[derive(Clone, Debug)]
pub struct ConnectRequest {
    pub authority: String,
    pub headers: Vec<(String, String)>,
}

/// The headers of a request.
pub open spec fn connect_headers(
    config: NaiveOutboundConfig,
    padding: Seq<char>,
) -> Seq<(Seq<char>, Seq<char>)> {
    seq![
        ("Proxy-Authorization"@, basic_auth(config.username@, config.password@)),
        ("Padding"@, padding),
    ] + header_pairs(config.extra_headers@)
}

impl<R> NaiveOutbound<R> {
    /// An outbound that leaves names to the system.
    pub fn new(config: NaiveOutboundConfig) -> (res: Result<Self, NaiveError>)
        ensures
            match config_fault(config) {
                Some(e) => res == Err::<Self, NaiveError>(e),
                None => res == Ok::<Self, NaiveError>(
                    NaiveOutbound { config, routing_mark: 0, resolver: None::<R> },
                ),
            },
    {
        match validate(&config) {
            Err(e) => Err(e),
            Ok(()) => Ok(NaiveOutbound { config, routing_mark: 0, resolver: None }),
        }
    }

    /// Sets what looks names up.
    pub fn with_resolver(self, resolver: R) -> (o: Self)
        ensures
            o == (NaiveOutbound { resolver: Some(resolver), ..self }),
    {
        let mut o = self;
        o.resolver = Some(resolver);
        o
    }

    /// Sets the mark of its packets.
    pub fn with_mark(self, mark: u32) -> (o: Self)
        ensures
            o == (NaiveOutbound { routing_mark: mark, ..self }),
    {
        let mut o = self;
        o.routing_mark = mark;
        o
    }

    /// The name that TLS asks for.
    pub fn tls_name(&self) -> (name: String)
        ensures
            name@ == match self.config.tls.server_name {
                Some(n) => n@,
                None => self.config.server@,
            },
    {
        match &self.config.tls.server_name {
            Some(n) => n.clone(),
            None => self.config.server.clone(),
        }
    }

    /// The request for a tunnel to `target`, with the given padding.
    pub fn connect_request(&self, target: &Target, padding: String) -> (req: ConnectRequest)
        ensures
            exists|host: Seq<char>| #[trigger]
                is_target_host(*target, host) && req.authority@ == host.push(':') + dec_text(
                    target_port(*target) as nat,
                ),
            header_pairs(req.headers@) == connect_headers(self.config, padding@),
    {
        let mut authority: String = target.host();
        let ghost host = authority@;
        authority.push(':');
        push_dec(&mut authority, target.port() as u64);
        assert(is_target_host(*target, host));
        let mut headers: Vec<(String, String)> = Vec::new();
        let ghost pad = padding@;
        let auth: String = build_basic_auth_value(&self.config.username, &self.config.password);
        headers.push(("Proxy-Authorization".to_string(), auth));
        headers.push(("Padding".to_string(), padding));
        let ghost front = seq![
            ("Proxy-Authorization"@, basic_auth(self.config.username@, self.config.password@)),
            ("Padding"@, pad),
        ];
        let extra: &Vec<(String, String)> = &self.config.extra_headers;
        let ghost all = header_pairs(extra@);
        let mut i: usize = 0;
        assert(header_pairs(headers@) =~= front + all.take(0));
        while i < extra.len()
            invariant
                i <= extra@.len(),
                all == header_pairs(extra@),
                header_pairs(headers@) == front + all.take(i as int),
            decreases extra@.len() - i,
        {
            let ghost before = header_pairs(headers@);
            headers.push((extra[i].0.clone(), extra[i].1.clone()));
            assert(header_pairs(headers@) =~= before.push(all[i as int]));
            assert(all.take(i + 1) =~= all.take(i as int).push(all[i as int]));
            assert(header_pairs(headers@) =~= front + all.take(i + 1));
            i += 1;
        }
        assert(all.take(i as int) =~= all);
        ConnectRequest { authority, headers }
    }

    /// Judges the answer to a request: only the status 200 is good.
    pub fn on_status(&self, status: u16) -> (res: Result<(), NaiveError>)
        ensures
            res == if status == 200 {
                Ok::<(), NaiveError>(())
            } else {
                Err::<(), NaiveError>(NaiveError::Status(status))
            },
    {
        if status == 200 {
            Ok(())
        } else {
            Err(NaiveError::Status(status))
        }
    }

    /// Whether datagrams go through a stream.
    pub open spec fn udp_enabled(&self) -> bool {
        self.config.udp_over_tcp matches Some(u) && u.enabled
    }

    /// Where a stream for datagrams goes, where the settings have them.
    pub fn udp_target(&self) -> (res: Result<Target, NaiveError>)
        ensures
            match res {
                Ok(target) => self.udp_enabled() && target_text(target) == TargetText::Domain(
                    "sp.v2.udp-over-tcp.arpa"@,
                    UOT_MAGIC_PORT,
                ),
                Err(e) => !self.udp_enabled() && e == NaiveError::UdpDisabled,
            },
    {
        let enabled: bool = match &self.config.udp_over_tcp {
            Some(u) => u.enabled,
            None => false,
        };
        if !enabled {
            return Err(NaiveError::UdpDisabled);
        }
        Ok(Target::Domain("sp.v2.udp-over-tcp.arpa".to_string(), UOT_MAGIC_PORT))
    }

    /// What the outbound says about itself.
    pub fn status(&self) -> (s: OutboundStatus)
        ensures
            s.name@ == self.config.tag@,
            s.kind@ == "Proxy"@,
            s.now is None,
            s.all@.len() == 0,
            s.history@.len() == 0,
    {
        default_status(&self.config.tag)
    }
}

} // verus!
