//! A Tailscale outbound.

use crate::config::TailscaleOutboundConfig;
use crate::net::{IpAddr, SocketAddr};
use crate::random::random_below;
use crate::status::OutboundStatus;
use crate::text::text_in;
use vstd::prelude::*;

verus! {

/// The first port from which datagrams are sent.
pub const FIRST_LOCAL_PORT: u16 = 49152;

/// For how many seconds a session for datagrams may be idle.
pub const UDP_IDLE_TIMEOUT_SECS: u64 = 5;

/// Where the identity of a device comes from.
#[derive(Clone, Debug, PartialEq, Eq)]
pub enum KeyState {
    Fresh,
    /// From a file in a directory. A file that cannot be read stands for a new identity.
    Load { dir: String, file: String },
}

/// What a device is made from.
#[derive(Clone, Debug)]
pub struct DevicePlan {
    pub key_state: KeyState,
    pub client_name: String,
    pub hostname: Option<String>,
    pub control_url: Option<String>,
    pub auth_key: Option<String>,
}

/// A Tailscale outbound; `R` is what looks names up.
pub struct TailscaleOutbound<R> {
    pub config: TailscaleOutboundConfig,
    pub resolver: Option<R>,
}

fn copy_option(s: &Option<String>) -> (out: Option<String>)
    ensures
        text_in(out) == text_in(*s),
{
    match s {
        Some(x) => Some(x.clone()),
        None => None,
    }
}

/// A port that datagrams are sent from.
pub fn random_local_port() -> (port: u16)
    ensures
        FIRST_LOCAL_PORT <= port,
{
    random_below(FIRST_LOCAL_PORT as usize, 65536) as u16
}

impl<R> TailscaleOutbound<R> {
    /// An outbound that leaves names to the system.
    pub fn new(config: TailscaleOutboundConfig) -> (o: Self)
        ensures
            o == (TailscaleOutbound { config, resolver: None::<R> }),
    {
        TailscaleOutbound { config, resolver: None }
    }

    /// Sets what looks names up.
    pub fn with_resolver(self, resolver: R) -> (o: Self)
        ensures
            o == (TailscaleOutbound { resolver: Some(resolver), ..self }),
    {
        let mut o = self;
        o.resolver = Some(resolver);
        o
    }

    /// What the device is made from. An identity is kept only where there is a directory for it and
    /// none is to be made for each start.
    pub fn device_plan(&self) -> (plan: DevicePlan)
        ensures
            match self.config.state_dir {
                Some(d) if !self.config.ephemeral => plan.key_state matches KeyState::Load {
                    dir,
                    file,
                } && dir@ == d@ && file@ == "tailscale_state.json"@,
                _ => plan.key_state is Fresh,
            },
            plan.client_name@ == match self.config.client_name {
                Some(n) => n@,
                None => "reflex"@,
            },
            text_in(plan.hostname) == text_in(self.config.hostname),
            text_in(plan.control_url) == text_in(self.config.control_url),
            text_in(plan.auth_key) == text_in(self.config.auth_key),
    {
        let key_state: KeyState = match &self.config.state_dir {
            Some(d) if !self.config.ephemeral => KeyState::Load {
                dir: d.clone(),
                file: "tailscale_state.json".to_string(),
            },
            _ => KeyState::Fresh,
        };
        DevicePlan {
            key_state,
            client_name: match &self.config.client_name {
                Some(n) => n.clone(),
                None => "reflex".to_string(),
            },
            hostname: copy_option(&self.config.hostname),
            control_url: copy_option(&self.config.control_url),
            auth_key: copy_option(&self.config.auth_key),
        }
    }

    /// The address that datagrams to `dst` are sent from, one of the same family. `v4` and `v6` are
    /// the addresses of the device, as far as it has them.
    pub fn udp_source(&self, dst: IpAddr, v4: Option<u32>, v6: Option<u128>, port: u16) -> (src: Option<
        SocketAddr,
    >)
        ensures
            src == match dst {
                IpAddr::V4(_) => match v4 {
                    Some(ip) => Some(SocketAddr { ip: IpAddr::V4(ip), port }),
                    None => None,
                },
                IpAddr::V6(_) => match v6 {
                    Some(ip) => Some(SocketAddr { ip: IpAddr::V6(ip), port }),
                    None => None,
                },
            },
    {
        match dst {
            IpAddr::V4(_) => match v4 {
                Some(ip) => Some(SocketAddr { ip: IpAddr::V4(ip), port }),
                None => None,
            },
            IpAddr::V6(_) => match v6 {
                Some(ip) => Some(SocketAddr { ip: IpAddr::V6(ip), port }),
                None => None,
            },
        }
    }

    /// What the outbound says about itself.
    pub fn status(&self) -> (s: OutboundStatus)
        ensures
            s.name@ == self.config.tag@,
            s.kind@ == "Tailscale"@,
            s.now is None,
            s.all@.len() == 0,
            s.history@.len() == 0,
    {
        OutboundStatus::leaf(&self.config.tag, "Tailscale")
    }
}

} // verus!
