//! A Hysteria2 outbound whose resolver can be replaced while it runs.

use crate::config::Hysteria2OutboundConfig;
use crate::hy2::{
    auth_headers, auth_step, h3_frame, params_for, AuthInfo, AuthStep, Hy2Outbound, UdpSession,
    H3_FRAME_HEADERS,
};
use crate::outbound::default_status;
use crate::qpack::literal_block;
use crate::net::{IpAddr, SocketAddr};
use crate::status::OutboundStatus;
use vstd::prelude::*;

verus! {

/// A Hysteria2 outbound; `R` is what looks names up.
pub struct Hysteria2Outbound<R> {
    pub client: Hy2Outbound<R>,
}

/// The address that a QUIC socket for `server` is bound to: any of its family.
pub fn quic_bind_addr(server: SocketAddr) -> (addr: SocketAddr)
    ensures
        addr == (SocketAddr {
            ip: match server.ip {
                IpAddr::V4(_) => IpAddr::V4(0),
                IpAddr::V6(_) => IpAddr::V6(0),
            },
            port: 0,
        }),
{
    let ip: IpAddr = match server.ip {
        IpAddr::V4(_) => IpAddr::V4(0),
        IpAddr::V6(_) => IpAddr::V6(0),
    };
    SocketAddr { ip, port: 0 }
}

impl<R> Hysteria2Outbound<R> {
    /// An outbound that leaves names to the system.
    pub fn new(config: Hysteria2OutboundConfig) -> (o: Self)
        ensures
            o.client.config == config,
            o.client.routing_mark == 0,
            o.client.resolver is None,
            o.client.udp_session_id == 0,
            o.client.params == params_for(config.up_mbps as nat),
    {
        Hysteria2Outbound { client: Hy2Outbound::new(config) }
    }

    /// Sets what looks names up.
    pub fn with_resolver(self, resolver: R) -> (o: Self)
        ensures
            o.client == (Hy2Outbound { resolver: Some(resolver), ..self.client }),
    {
        Hysteria2Outbound { client: self.client.with_resolver(resolver) }
    }

    /// Replaces what looks names up; nothing else changes.
    pub fn update_resolver(&mut self, resolver: R)
        ensures
            final(self).client == (Hy2Outbound { resolver: Some(resolver), ..old(self).client }),
    {
        self.client.resolver = Some(resolver);
    }

    /// Sets the mark of its packets.
    pub fn with_mark(self, mark: u32) -> (o: Self)
        ensures
            o.client == (Hy2Outbound { routing_mark: mark, ..self.client }),
    {
        Hysteria2Outbound { client: self.client.with_mark(mark) }
    }

    /// The name that TLS asks for.
    pub fn tls_name(&self) -> (name: String)
        ensures
            name@ == match self.client.config.tls.server_name {
                Some(n) => n@,
                None => self.client.config.server@,
            },
    {
        match &self.client.config.tls.server_name {
            Some(n) => n.clone(),
            None => self.client.config.server.clone(),
        }
    }

    /// The authentication request, with the given padding.
    pub fn auth_request(&self, padding: &str) -> (frame: Vec<u8>)
        ensures
            frame@ == h3_frame(
                H3_FRAME_HEADERS,
                literal_block(
                    auth_headers(
                        self.client.config.password@,
                        (self.client.config.down_mbps * 1_000_000) as nat,
                        padding@,
                    ),
                ),
            ),
    {
        self.client.auth_request(padding)
    }

    /// What a frame of the authentication response means for this client.
    pub fn on_auth_frame(&self, frame_type: u64, payload: &[u8]) -> (step: AuthStep)
        ensures
            step == auth_step(
                frame_type,
                payload@,
                (self.client.config.up_mbps * 1_000_000) as nat,
            ),
    {
        self.client.on_auth_frame(frame_type, payload)
    }

    /// Opens a UDP session, unless the server does not relay UDP. Session numbers wrap round.
    pub fn open_udp(&mut self, auth: &AuthInfo) -> (session: Option<UdpSession>)
        ensures
            auth.udp_enabled ==> session == Some(
                UdpSession { session_id: old(self).client.udp_session_id, next_packet: 0 },
            ) && final(self).client.udp_session_id as nat == (old(self).client.udp_session_id + 1)
                % 0x1_0000_0000,
            !auth.udp_enabled ==> session is None && final(self).client.udp_session_id == old(
                self,
            ).client.udp_session_id,
            final(self).client.config == old(self).client.config,
            final(self).client.routing_mark == old(self).client.routing_mark,
            final(self).client.resolver == old(self).client.resolver,
            final(self).client.params == old(self).client.params,
    {
        self.client.open_udp(auth)
    }

    /// What the outbound says about itself.
    pub fn status(&self) -> (s: OutboundStatus)
        ensures
            s.name@ == self.client.config.tag@,
            s.kind@ == "Proxy"@,
            s.now is None,
            s.all@.len() == 0,
            s.history@.len() == 0,
    {
        default_status(&self.client.config.tag)
    }
}

} // verus!
