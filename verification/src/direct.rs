//! An outbound without a proxy.

use crate::common::local_ranges::{is_local_in, local_in};
use crate::config::{DirectOutboundConfig, ResolveStrategy};
use crate::net::{same_target, target_text, IpAddr, SocketAddr, Target, TargetText};
use crate::status::OutboundStatus;
use crate::text::{eq_ignore_case, lower_text};
use vstd::prelude::*;

verus! {

/// How long a connection may take, in milliseconds, where the settings say nothing.
pub const DEFAULT_TCP_CONNECT_TIMEOUT_MS: u64 = 5000;

/// After how many milliseconds the next address is tried, where the settings say nothing.
pub const DEFAULT_FALLBACK_DELAY_MS: u64 = 250;

/// Why nothing is connected.
#[derive(Clone, Copy, Debug, PartialEq, Eq, Structural)]
pub enum DirectError {
    /// The strategy leaves no address.
    FilteredOut,
    /// The address lies in a range of this host.
    Loopback(IpAddr),
    NoCandidates,
}

/// An outbound without a proxy; `R` is what looks names up.
pub struct DirectOutbound<R> {
    pub config: DirectOutboundConfig,
    pub resolver: Option<R>,
    /// The mark of its packets; zero for none.
    pub routing_mark: u32,
    /// Whether the interface is chosen by the address.
    pub auto_detect_interface: bool,
    pub default_interface: Option<String>,
    pub connect_timeout_ms: u64,
    pub domain_strategy: Option<ResolveStrategy>,
}

/// How a socket is held to an interface.
#[derive(Clone, Debug, PartialEq, Eq)]
pub enum InterfaceBind {
    Named(String),
    /// To the one that leads to the address.
    Auto,
    Free,
}

/// How a socket is set up before it is used.
#[derive(Clone, Debug)]
pub struct SocketPlan {
    /// The address that it is bound to, as the settings write it.
    pub bind_address: Option<String>,
    /// Whether it is for IPv6, where no address is set.
    pub v6: bool,
    pub reuse_address: bool,
    pub interface: InterfaceBind,
    /// The mark; zero for none.
    pub mark: u32,
}

/// What asking for a name gave.
#[derive(Debug)]
pub enum Lookup {
    NoResolver,
    Failed,
    Answers(Vec<IpAddr>),
}

/// The addresses of a target, as far as they are known.
#[derive(Debug)]
pub enum Candidates {
    Known(Vec<SocketAddr>),
    /// The name is to be looked up for one address.
    LookUpOne,
}

/// The addresses that a strategy takes, in its order. Those of one family keep theirs.
pub open spec fn by_strategy(ips: Seq<IpAddr>, strategy: ResolveStrategy) -> Seq<IpAddr> {
    let v4 = ips.filter(|ip: IpAddr| ip is V4);
    let v6 = ips.filter(|ip: IpAddr| ip is V6);
    match strategy {
        ResolveStrategy::Ipv4Only => v4,
        ResolveStrategy::Ipv6Only => v6,
        ResolveStrategy::PreferIpv4 => v4 + v6,
        ResolveStrategy::PreferIpv6 => v6 + v4,
    }
}

/// A strategy that prefers a family neither drops nor adds an address.
pub proof fn preference_keeps_all(ips: Seq<IpAddr>)
    ensures
        by_strategy(ips, ResolveStrategy::PreferIpv4).to_multiset() == ips.to_multiset(),
        by_strategy(ips, ResolveStrategy::PreferIpv6).to_multiset() == ips.to_multiset(),
{
    let v4 = ips.filter(|ip: IpAddr| ip is V4);
    let v6 = ips.filter(|ip: IpAddr| ip is V6);
    families_make_all(ips);
    vstd::seq_lib::lemma_multiset_commutative(v4, v6);
    vstd::seq_lib::lemma_multiset_commutative(v6, v4);
    assert(v6.to_multiset().add(v4.to_multiset()) =~= v4.to_multiset().add(v6.to_multiset()));
}

proof fn families_make_all(ips: Seq<IpAddr>)
    ensures
        ips.filter(|ip: IpAddr| ip is V4).to_multiset().add(
            ips.filter(|ip: IpAddr| ip is V6).to_multiset(),
        ) =~= ips.to_multiset(),
    decreases ips.len(),
{
    broadcast use vstd::seq_lib::group_to_multiset_ensures;

    reveal(Seq::filter);
    let four = |ip: IpAddr| ip is V4;
    let six = |ip: IpAddr| ip is V6;
    if ips.len() > 0 {
        let rest = ips.drop_last();
        let x = ips.last();
        families_make_all(rest);
        assert(ips =~= rest.push(x));
        assert(ips.to_multiset() =~= rest.to_multiset().insert(x));
        let a = rest.filter(four);
        let b = rest.filter(six);
        if x is V4 {
            assert(ips.filter(four) == a.push(x));
            assert(ips.filter(six) == b);
            assert(a.push(x).to_multiset() =~= a.to_multiset().insert(x));
        } else {
            assert(ips.filter(six) == b.push(x));
            assert(ips.filter(four) == a);
            assert(b.push(x).to_multiset() =~= b.to_multiset().insert(x));
        }
    } else {
        assert(ips.filter(four).to_multiset() =~= ips.to_multiset());
    }
}

fn split_family(ips: &[IpAddr], v4: bool) -> (out: Vec<IpAddr>)
    ensures
        v4 ==> out@ == ips@.filter(|ip: IpAddr| ip is V4),
        !v4 ==> out@ == ips@.filter(|ip: IpAddr| ip is V6),
{
    let mut out: Vec<IpAddr> = Vec::new();
    let mut i: usize = 0;
    reveal(Seq::filter);
    while i < ips.len()
        invariant
            i <= ips@.len(),
            v4 ==> out@ == ips@.take(i as int).filter(|ip: IpAddr| ip is V4),
            !v4 ==> out@ == ips@.take(i as int).filter(|ip: IpAddr| ip is V6),
        decreases ips@.len() - i,
    {
        reveal(Seq::filter);
        assert(ips@.take(i + 1).drop_last() =~= ips@.take(i as int));
        let ip: IpAddr = ips[i];
        if ip.is_ipv4() == v4 {
            out.push(ip);
        }
        i += 1;
    }
    assert(ips@.take(i as int) =~= ips@);
    out
}

/// Chooses and orders addresses.
pub fn apply_domain_strategy(ips: &[IpAddr], strategy: ResolveStrategy) -> (out: Vec<IpAddr>)
    ensures
        out@ == by_strategy(ips@, strategy),
{
    match strategy {
        ResolveStrategy::Ipv4Only => split_family(ips, true),
        ResolveStrategy::Ipv6Only => split_family(ips, false),
        ResolveStrategy::PreferIpv4 => {
            let mut out: Vec<IpAddr> = split_family(ips, true);
            let mut rest: Vec<IpAddr> = split_family(ips, false);
            out.append(&mut rest);
            out
        },
        ResolveStrategy::PreferIpv6 => {
            let mut out: Vec<IpAddr> = split_family(ips, false);
            let mut rest: Vec<IpAddr> = split_family(ips, true);
            out.append(&mut rest);
            out
        },
    }
}

/// Addresses with a port.
pub open spec fn with_port(ips: Seq<IpAddr>, port: u16) -> Seq<SocketAddr> {
    ips.map_values(|ip: IpAddr| SocketAddr { ip, port })
}

/// The addresses after a strategy, where there is one.
pub open spec fn chosen_ips(ips: Seq<IpAddr>, strategy: Option<ResolveStrategy>) -> Seq<IpAddr> {
    match strategy {
        Some(s) => by_strategy(ips, s),
        None => ips,
    }
}

/// The addresses of a target after its name was asked for.
pub fn resolve_candidates_with(
    target: &Target,
    lookup: &Lookup,
    strategy: Option<ResolveStrategy>,
) -> (res: Result<Candidates, DirectError>)
    ensures
        match (*target, *lookup) {
            (Target::Socket(addr), _) => res matches Ok(Candidates::Known(list)) && list@ == seq![
                addr,
            ],
            (Target::Domain(_, port), Lookup::Answers(ips)) if ips@.len() > 0 => {
                let taken = chosen_ips(ips@, strategy);
                if taken.len() == 0 {
                    res == Err::<Candidates, DirectError>(DirectError::FilteredOut)
                } else {
                    res matches Ok(Candidates::Known(list)) && list@ == with_port(taken, port)
                }
            },
            _ => res == Ok::<Candidates, DirectError>(Candidates::LookUpOne),
        },
{
    let port: u16 = match target {
        Target::Socket(addr) => {
            let list: Vec<SocketAddr> = vec![*addr];
            assert(list@ =~= seq![*addr]);
            return Ok(Candidates::Known(list));
        },
        Target::Domain(_, port) => *port,
    };
    match lookup {
        Lookup::Answers(ips) if ips.len() > 0 => {
            let taken: Vec<IpAddr> = match strategy {
                Some(s) => apply_domain_strategy(ips, s),
                None => copy_ips(ips),
            };
            if taken.len() == 0 {
                return Err(DirectError::FilteredOut);
            }
            Ok(Candidates::Known(add_port(&taken, port)))
        },
        _ => Ok(Candidates::LookUpOne),
    }
}

fn copy_ips(ips: &[IpAddr]) -> (out: Vec<IpAddr>)
    ensures
        out@ == ips@,
{
    let mut out: Vec<IpAddr> = Vec::new();
    let mut i: usize = 0;
    while i < ips.len()
        invariant
            i <= ips@.len(),
            out@ == ips@.take(i as int),
        decreases ips@.len() - i,
    {
        out.push(ips[i]);
        assert(ips@.take(i + 1) =~= ips@.take(i as int).push(ips@[i as int]));
        i += 1;
    }
    assert(ips@.take(i as int) =~= ips@);
    out
}

fn add_port(ips: &[IpAddr], port: u16) -> (out: Vec<SocketAddr>)
    ensures
        out@ == with_port(ips@, port),
{
    let mut out: Vec<SocketAddr> = Vec::new();
    let mut i: usize = 0;
    while i < ips.len()
        invariant
            i <= ips@.len(),
            out@ == with_port(ips@.take(i as int), port),
        decreases ips@.len() - i,
    {
        out.push(SocketAddr { ip: ips[i], port });
        assert(ips@.take(i + 1) =~= ips@.take(i as int).push(ips@[i as int]));
        assert(out@ =~= with_port(ips@.take(i + 1), port));
        i += 1;
    }
    assert(ips@.take(i as int) =~= ips@);
    out
}

/// The first address that lies in a range of this host.
pub open spec fn first_local(
    candidates: Seq<SocketAddr>,
    ranges: Seq<(IpAddr, u8)>,
    exempt_own: bool,
) -> Option<IpAddr>
    decreases candidates.len(),
{
    if candidates.len() == 0 {
        None
    } else if local_in(candidates[0].ip, ranges, exempt_own) {
        Some(candidates[0].ip)
    } else {
        first_local(candidates.skip(1), ranges, exempt_own)
    }
}

/// Refuses to connect where any of the addresses lies in a range of this host.
pub fn reject_local_loopback(
    candidates: &[SocketAddr],
    ranges: &[(IpAddr, u8)],
    exempt_own: bool,
) -> (res: Result<(), DirectError>)
    ensures
        res == match first_local(candidates@, ranges@, exempt_own) {
            Some(ip) => Err::<(), DirectError>(DirectError::Loopback(ip)),
            None => Ok::<(), DirectError>(()),
        },
{
    let mut i: usize = 0;
    assert(candidates@.skip(0) =~= candidates@);
    while i < candidates.len()
        invariant
            i <= candidates@.len(),
            first_local(candidates@, ranges@, exempt_own) == first_local(
                candidates@.skip(i as int),
                ranges@,
                exempt_own,
            ),
        decreases candidates@.len() - i,
    {
        assert(candidates@.skip(i as int).skip(1) =~= candidates@.skip(i + 1));
        if is_local_in(candidates[i].ip, ranges, exempt_own) {
            return Err(DirectError::Loopback(candidates[i].ip));
        }
        i += 1;
    }
    Ok(())
}

/// What passes the check for ranges of this host holds no address in one of them.
pub proof fn passed_is_not_local(
    candidates: Seq<SocketAddr>,
    ranges: Seq<(IpAddr, u8)>,
    exempt_own: bool,
)
    ensures
        first_local(candidates, ranges, exempt_own) is None <==> forall|i: int|
            0 <= i < candidates.len() ==> !local_in(
                (#[trigger] candidates[i]).ip,
                ranges,
                exempt_own,
            ),
    decreases candidates.len(),
{
    if candidates.len() > 0 {
        let rest = candidates.skip(1);
        passed_is_not_local(rest, ranges, exempt_own);
        assert forall|i: int| 1 <= i < candidates.len() implies candidates[i] == rest[i - 1] by {}
        if !local_in(candidates[0].ip, ranges, exempt_own) && first_local(
            rest,
            ranges,
            exempt_own,
        ) is Some {
            let j = choose|j: int|
                0 <= j < rest.len() && local_in((#[trigger] rest[j]).ip, ranges, exempt_own);
            assert(candidates[j + 1] == rest[j]);
        }
    }
}

/// How the addresses of a target are tried.
#[derive(Clone, Copy, Debug, PartialEq, Eq, Structural)]
pub enum DialPlan {
    /// Only this one.
    Single(SocketAddr),
    /// One after the other, the next one after so many milliseconds.
    Race(u64),
}

impl<R> DirectOutbound<R> {
    fn build(config: DirectOutboundConfig, resolver: Option<R>) -> (o: Self)
        ensures
            o.config == config,
            o.resolver == resolver,
            o.routing_mark == 0,
            !o.auto_detect_interface,
            o.default_interface is None,
            o.connect_timeout_ms == match config.connect_timeout_ms {
                Some(ms) => ms,
                None => DEFAULT_TCP_CONNECT_TIMEOUT_MS,
            },
            o.domain_strategy == config.domain_strategy,
    {
        let connect_timeout_ms: u64 = match config.connect_timeout_ms {
            Some(ms) => ms,
            None => DEFAULT_TCP_CONNECT_TIMEOUT_MS,
        };
        let domain_strategy: Option<ResolveStrategy> = config.domain_strategy;
        DirectOutbound {
            config,
            resolver,
            routing_mark: 0,
            auto_detect_interface: false,
            default_interface: None,
            connect_timeout_ms,
            domain_strategy,
        }
    }

    /// An outbound that leaves names to the system.
    pub fn new(config: DirectOutboundConfig) -> (o: Self)
        ensures
            o.config == config,
            o.resolver is None,
            o.routing_mark == 0,
            !o.auto_detect_interface,
            o.default_interface is None,
            o.connect_timeout_ms == match config.connect_timeout_ms {
                Some(ms) => ms,
                None => DEFAULT_TCP_CONNECT_TIMEOUT_MS,
            },
            o.domain_strategy == config.domain_strategy,
    {
        Self::build(config, None)
    }

    /// An outbound that looks names up itself.
    pub fn with_resolver(config: DirectOutboundConfig, resolver: R) -> (o: Self)
        ensures
            o.config == config,
            o.resolver == Some(resolver),
            o.routing_mark == 0,
            !o.auto_detect_interface,
            o.default_interface is None,
            o.connect_timeout_ms == match config.connect_timeout_ms {
                Some(ms) => ms,
                None => DEFAULT_TCP_CONNECT_TIMEOUT_MS,
            },
            o.domain_strategy == config.domain_strategy,
    {
        Self::build(config, Some(resolver))
    }

    /// Sets the mark of its packets.
    pub fn with_mark(self, mark: u32) -> (o: Self)
        ensures
            o == (DirectOutbound { routing_mark: mark, ..self }),
    {
        let mut o = self;
        o.routing_mark = mark;
        o
    }

    /// Sets whether the interface is chosen by the address.
    pub fn with_auto_detect_interface(self, enabled: bool) -> (o: Self)
        ensures
            o == (DirectOutbound { auto_detect_interface: enabled, ..self }),
    {
        let mut o = self;
        o.auto_detect_interface = enabled;
        o
    }

    /// Sets the interface.
    pub fn with_default_interface(self, iface: Option<String>) -> (o: Self)
        ensures
            o == (DirectOutbound { default_interface: iface, ..self }),
    {
        let mut o = self;
        o.default_interface = iface;
        o
    }

    /// Whether several addresses are tried at a time.
    pub open spec fn races(&self) -> bool {
        match self.config.network_strategy {
            Some(s) => lower_text(s@) == "happy_eyeballs"@,
            None => false,
        }
    }

    /// Whether a socket is held to the interface: a named one comes before one that is chosen by
    /// the address.
    pub open spec fn binds(&self, bind: InterfaceBind) -> bool {
        match self.default_interface {
            Some(name) => bind matches InterfaceBind::Named(n) && n@ == name@,
            None => if self.auto_detect_interface {
                bind is Auto
            } else {
                bind is Free
            },
        }
    }

    /// How a socket is held to an interface.
    pub fn interface_bind(&self) -> (bind: InterfaceBind)
        ensures
            self.binds(bind),
    {
        match &self.default_interface {
            Some(name) => InterfaceBind::Named(name.clone()),
            None => if self.auto_detect_interface {
                InterfaceBind::Auto
            } else {
                InterfaceBind::Free
            },
        }
    }

    /// How a socket for a connection is set up. The mark is set before it connects.
    pub fn tcp_socket_plan(&self, addr: SocketAddr) -> (plan: SocketPlan)
        ensures
            match self.config.bind_address {
                Some(b) => plan.bind_address matches Some(a) && a@ == b@,
                None => plan.bind_address is None,
            },
            plan.v6 == addr.ip is V6,
            plan.reuse_address == (self.config.bind_address is Some || self.default_interface is Some
                || self.auto_detect_interface),
            self.binds(plan.interface),
            plan.mark == self.routing_mark,
    {
        let bind_address: Option<String> = match &self.config.bind_address {
            Some(b) => Some(b.clone()),
            None => None,
        };
        SocketPlan {
            v6: addr.is_ipv6(),
            reuse_address: bind_address.is_some() || self.default_interface.is_some()
                || self.auto_detect_interface,
            bind_address,
            interface: self.interface_bind(),
            mark: self.routing_mark,
        }
    }

    /// How a socket for datagrams is set up. One with an address of its own is held to no
    /// interface.
    pub fn udp_socket_plan(&self, dst: SocketAddr) -> (plan: SocketPlan)
        ensures
            match self.config.bind_address {
                Some(b) => plan.bind_address matches Some(a) && a@ == b@ && plan.interface is Free,
                None => plan.bind_address is None && self.binds(plan.interface),
            },
            plan.v6 == dst.ip is V6,
            !plan.reuse_address,
            plan.mark == self.routing_mark,
    {
        let (bind_address, interface): (Option<String>, InterfaceBind) =
            match &self.config.bind_address {
            Some(b) => (Some(b.clone()), InterfaceBind::Free),
            None => (None, self.interface_bind()),
        };
        SocketPlan {
            bind_address,
            v6: dst.is_ipv6(),
            reuse_address: false,
            interface,
            mark: self.routing_mark,
        }
    }

    /// How the addresses of a target are tried.
    pub fn dial_plan(
        &self,
        candidates: &[SocketAddr],
        ranges: &[(IpAddr, u8)],
        exempt_own: bool,
    ) -> (res: Result<DialPlan, DirectError>)
        ensures
            res == match first_local(candidates@, ranges@, exempt_own) {
                Some(ip) => Err::<DialPlan, DirectError>(DirectError::Loopback(ip)),
                None => if candidates@.len() == 0 {
                    Err::<DialPlan, DirectError>(DirectError::NoCandidates)
                } else if self.races() && candidates@.len() > 1 {
                    Ok::<DialPlan, DirectError>(
                        DialPlan::Race(
                            match self.config.fallback_delay_ms {
                                Some(ms) => ms,
                                None => DEFAULT_FALLBACK_DELAY_MS,
                            },
                        ),
                    )
                } else {
                    Ok::<DialPlan, DirectError>(DialPlan::Single(candidates@[0]))
                },
            },
    {
        if let Err(e) = reject_local_loopback(candidates, ranges, exempt_own) {
            return Err(e);
        }
        if candidates.len() == 0 {
            return Err(DirectError::NoCandidates);
        }
        let races: bool = match &self.config.network_strategy {
            Some(s) => eq_ignore_case(s, "happy_eyeballs"),
            None => false,
        };
        proof {
            reveal_strlit("happy_eyeballs");
            assert(lower_text("happy_eyeballs"@) =~= "happy_eyeballs"@);
        }
        if races && candidates.len() > 1 {
            return Ok(
                DialPlan::Race(
                    match self.config.fallback_delay_ms {
                        Some(ms) => ms,
                        None => DEFAULT_FALLBACK_DELAY_MS,
                    },
                ),
            );
        }
        Ok(DialPlan::Single(candidates[0]))
    }

    /// What the outbound says about itself.
    pub fn status(&self) -> (s: OutboundStatus)
        ensures
            s.name@ == self.config.tag@,
            s.kind@ == "Direct"@,
            s.now is None,
            s.all@.len() == 0,
            s.history@.len() == 0,
    {
        OutboundStatus::leaf(&self.config.tag, "Direct")
    }
}

/// What follows on the failure of an attempt.
#[derive(Clone, Copy, Debug, PartialEq, Eq, Structural)]
pub enum RaceStep {
    /// Try this address too.
    Start(SocketAddr),
    /// Wait for the other attempts.
    Wait,
    /// All attempts have failed.
    GiveUp,
}

/// Attempts to connect to several addresses, of which the first to succeed is taken.
pub struct Race {
    pub candidates: Vec<SocketAddr>,
    /// How many attempts were started.
    pub started: usize,
    /// How many attempts have failed.
    pub failed: usize,
}

impl Race {
    /// Attempts have been started in order, and no more have failed than were started. As long as
    /// any address is left, an attempt is under way.
    pub open spec fn wf(self) -> bool {
        &&& 1 <= self.started <= self.candidates@.len()
        &&& self.failed <= self.started
        &&& self.failed < self.started || self.started == self.candidates@.len()
    }

    /// How many attempts are under way.
    pub open spec fn running(self) -> int {
        self.started - self.failed
    }

    /// Starts with the first address, which is to be tried at once.
    pub fn start(candidates: Vec<SocketAddr>) -> (res: Result<(Race, SocketAddr), DirectError>)
        ensures
            match res {
                Ok((race, first)) => candidates@.len() > 0 && race.wf() && race.candidates@
                    == candidates@ && race.started == 1 && race.failed == 0 && first
                    == candidates@[0],
                Err(e) => candidates@.len() == 0 && e == DirectError::NoCandidates,
            },
    {
        if candidates.len() == 0 {
            return Err(DirectError::NoCandidates);
        }
        let first: SocketAddr = candidates[0];
        Ok((Race { candidates, started: 1, failed: 0 }, first))
    }

    /// Whether an address is left, so that the delay is to be waited for.
    pub fn has_more(&self) -> (yes: bool)
        ensures
            yes == (self.started < self.candidates@.len()),
    {
        self.started < self.candidates.len()
    }

    /// An attempt has failed: the next address is tried at once.
    pub fn on_failed(&mut self) -> (step: RaceStep)
        requires
            old(self).wf(),
            old(self).running() > 0,
        ensures
            final(self).wf(),
            final(self).candidates == old(self).candidates,
            final(self).failed == old(self).failed + 1,
            final(self).started == if old(self).started < old(self).candidates@.len() {
                old(self).started + 1
            } else {
                old(self).started as int
            },
            step == if old(self).started < old(self).candidates@.len() {
                RaceStep::Start(old(self).candidates@[old(self).started as int])
            } else if old(self).running() > 1 {
                RaceStep::Wait
            } else {
                RaceStep::GiveUp
            },
            step is GiveUp <==> final(self).failed == final(self).candidates@.len(),
    {
        self.failed += 1;
        if self.started < self.candidates.len() {
            let addr: SocketAddr = self.candidates[self.started];
            self.started += 1;
            RaceStep::Start(addr)
        } else if self.failed < self.started {
            RaceStep::Wait
        } else {
            RaceStep::GiveUp
        }
    }

    /// The delay is over: the next address is tried beside the others.
    pub fn on_delay(&mut self) -> (next: Option<SocketAddr>)
        requires
            old(self).wf(),
        ensures
            final(self).wf(),
            final(self).candidates == old(self).candidates,
            final(self).failed == old(self).failed,
            match next {
                Some(addr) => old(self).started < old(self).candidates@.len() && addr == old(
                    self,
                ).candidates@[old(self).started as int] && final(self).started == old(self).started
                    + 1,
                None => old(self).started == old(self).candidates@.len() && final(self).started
                    == old(self).started,
            },
    {
        if self.started < self.candidates.len() {
            let addr: SocketAddr = self.candidates[self.started];
            self.started += 1;
            Some(addr)
        } else {
            None
        }
    }
}

/// A race that has not ended has an attempt under way.
pub proof fn race_goes_on(race: Race)
    requires
        race.wf(),
        race.failed < race.candidates@.len(),
    ensures
        race.running() > 0,
{
}

/// Where the datagrams of a session go.
pub struct UdpRoutes {
    pub known: Vec<(Target, SocketAddr)>,
}

/// The address that is known for a target.
pub open spec fn route_of(known: Seq<(Target, SocketAddr)>, target: TargetText) -> Option<
    SocketAddr,
>
    decreases known.len(),
{
    if known.len() == 0 {
        None
    } else if target_text(known[0].0) == target {
        Some(known[0].1)
    } else {
        route_of(known.skip(1), target)
    }
}

proof fn route_pushed(known: Seq<(Target, SocketAddr)>, x: (Target, SocketAddr), t: TargetText)
    ensures
        route_of(known.push(x), t) == match route_of(known, t) {
            Some(a) => Some(a),
            None => if target_text(x.0) == t {
                Some(x.1)
            } else {
                None
            },
        },
    decreases known.len(),
{
    if known.len() > 0 {
        assert(known.push(x).skip(1) =~= known.skip(1).push(x));
        route_pushed(known.skip(1), x, t);
    } else {
        assert(known.push(x).skip(1) =~= known);
    }
}

impl UdpRoutes {
    /// The address that is known for a target.
    pub open spec fn route(self, target: TargetText) -> Option<SocketAddr> {
        route_of(self.known@, target)
    }

    /// The routes of a session whose first datagram went to `dst`.
    pub fn new(target: Target, dst: SocketAddr) -> (routes: UdpRoutes)
        ensures
            forall|t: TargetText| #[trigger]
                routes.route(t) == if t == target_text(target) {
                    Some(dst)
                } else {
                    None::<SocketAddr>
                },
    {
        let mut known: Vec<(Target, SocketAddr)> = Vec::new();
        proof {
            assert forall|t: TargetText| #[trigger]
                route_of(known@.push((target, dst)), t) == if t == target_text(target) {
                    Some(dst)
                } else {
                    None::<SocketAddr>
                } by {
                route_pushed(known@, (target, dst), t);
            }
        }
        known.push((target, dst));
        UdpRoutes { known }
    }

    /// The address for a target, where it is known.
    pub fn get(&self, target: &Target) -> (dst: Option<SocketAddr>)
        ensures
            dst == self.route(target_text(*target)),
    {
        let mut i: usize = 0;
        assert(self.known@.skip(0) =~= self.known@);
        while i < self.known.len()
            invariant
                i <= self.known@.len(),
                route_of(self.known@, target_text(*target)) == route_of(
                    self.known@.skip(i as int),
                    target_text(*target),
                ),
            decreases self.known@.len() - i,
        {
            assert(self.known@.skip(i as int).skip(1) =~= self.known@.skip(i + 1));
            if same_target(&self.known[i].0, target) {
                return Some(self.known[i].1);
            }
            i += 1;
        }
        None
    }

    /// The addresses of a target that was not known yet. A datagram without an address, or to a
    /// range of this host, is dropped; else the first address is kept.
    pub fn on_resolved(
        &mut self,
        target: Target,
        candidates: &[SocketAddr],
        ranges: &[(IpAddr, u8)],
        exempt_own: bool,
    ) -> (dst: Option<SocketAddr>)
        requires
            old(self).route(target_text(target)) is None,
        ensures
            dst == if candidates@.len() == 0 || local_in(candidates@[0].ip, ranges@, exempt_own) {
                None::<SocketAddr>
            } else {
                Some(candidates@[0])
            },
            forall|t: TargetText| #[trigger]
                final(self).route(t) == if t == target_text(target) {
                    dst
                } else {
                    old(self).route(t)
                },
    {
        if candidates.len() == 0 {
            return None;
        }
        let dst: SocketAddr = candidates[0];
        if is_local_in(dst.ip, ranges, exempt_own) {
            return None;
        }
        proof {
            assert forall|t: TargetText| #[trigger]
                route_of(self.known@.push((target, dst)), t) == if t == target_text(target) {
                    Some(dst)
                } else {
                    route_of(self.known@, t)
                } by {
                route_pushed(self.known@, (target, dst), t);
            }
        }
        self.known.push((target, dst));
        Some(dst)
    }
}

/// The address that replies seem to come from: the one that the client used, else the real one.
pub fn reply_source(origin_destination: Option<SocketAddr>, first_dst: SocketAddr) -> (addr:
    SocketAddr)
    ensures
        addr == match origin_destination {
            Some(a) => a,
            None => first_dst,
        },
{
    match origin_destination {
        Some(a) => a,
        None => first_dst,
    }
}

} // verus!
