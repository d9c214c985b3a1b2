//! The order in which a direct connection tries addresses.

use crate::config::ResolveStrategy;
use crate::direct::{by_strategy, DirectOutbound, InterfaceBind, Race};
use crate::laws::words::{case_does_not_count, lower_words_stay, same_word};
use crate::net::IpAddr;
use vstd::prelude::*;

verus! {

proof fn filter_of_all(s: Seq<IpAddr>, p: spec_fn(IpAddr) -> bool)
    requires
        forall|i: int| 0 <= i < s.len() ==> p(#[trigger] s[i]),
    ensures
        s.filter(p) == s,
    decreases s.len(),
{
    reveal(Seq::filter);
    if s.len() > 0 {
        filter_of_all(s.drop_last(), p);
        assert(s.drop_last().push(s.last()) =~= s);
    } else {
        assert(s.filter(p) =~= s);
    }
}

proof fn filter_of_none(s: Seq<IpAddr>, p: spec_fn(IpAddr) -> bool)
    requires
        forall|i: int| 0 <= i < s.len() ==> !p(#[trigger] s[i]),
    ensures
        s.filter(p) == Seq::<IpAddr>::empty(),
    decreases s.len(),
{
    reveal(Seq::filter);
    if s.len() > 0 {
        filter_of_none(s.drop_last(), p);
    }
}

proof fn filter_of_sum(a: Seq<IpAddr>, b: Seq<IpAddr>, p: spec_fn(IpAddr) -> bool)
    ensures
        (a + b).filter(p) == a.filter(p) + b.filter(p),
    decreases b.len(),
{
    reveal(Seq::filter);
    if b.len() == 0 {
        assert(a + b =~= a);
        assert(a.filter(p) + b.filter(p) =~= a.filter(p));
    } else {
        assert((a + b).drop_last() =~= a + b.drop_last());
        filter_of_sum(a, b.drop_last(), p);
        assert((a + b).filter(p) =~= a.filter(p) + b.filter(p));
    }
}

/// The family that is preferred comes first, and the only one that is wanted comes alone. The
/// addresses of a family stay in the order in which they were found, and where a family is wanted
/// none of it is lost.
pub proof fn strategy_orders(ips: Seq<IpAddr>, strategy: ResolveStrategy)
    ensures
        ({
            let out = by_strategy(ips, strategy);
            let v4 = |ip: IpAddr| ip is V4;
            let v6 = |ip: IpAddr| ip is V6;
            &&& strategy is PreferIpv6 ==> forall|i: int, j: int|
                0 <= i < j < out.len() && out[j] is V6 ==> out[i] is V6
            &&& strategy is PreferIpv4 ==> forall|i: int, j: int|
                0 <= i < j < out.len() && out[j] is V4 ==> out[i] is V4
            &&& strategy is Ipv4Only ==> forall|i: int| 0 <= i < out.len() ==> out[i] is V4
            &&& strategy is Ipv6Only ==> forall|i: int| 0 <= i < out.len() ==> out[i] is V6
            &&& !(strategy is Ipv6Only) ==> out.filter(v4) == ips.filter(v4)
            &&& !(strategy is Ipv4Only) ==> out.filter(v6) == ips.filter(v6)
        }),
{
    let v4 = |ip: IpAddr| ip is V4;
    let v6 = |ip: IpAddr| ip is V6;
    let a = ips.filter(v4);
    let b = ips.filter(v6);
    assert forall|i: int| 0 <= i < a.len() implies (#[trigger] a[i]) is V4 by {
        ips.lemma_filter_pred(v4, i);
    }
    assert forall|i: int| 0 <= i < b.len() implies (#[trigger] b[i]) is V6 by {
        ips.lemma_filter_pred(v6, i);
    }
    filter_of_all(a, v4);
    filter_of_all(b, v6);
    filter_of_none(a, v6);
    filter_of_none(b, v4);
    filter_of_sum(a, b, v4);
    filter_of_sum(a, b, v6);
    filter_of_sum(b, a, v4);
    filter_of_sum(b, a, v6);
    assert(a + Seq::<IpAddr>::empty() =~= a);
    assert(Seq::<IpAddr>::empty() + a =~= a);
    assert(b + Seq::<IpAddr>::empty() =~= b);
    assert(Seq::<IpAddr>::empty() + b =~= b);
}

/// Addresses are raced only where the settings ask for happy eyeballs, in any case of the letters.
pub proof fn races_by_name<R>(o: DirectOutbound<R>)
    ensures
        o.config.network_strategy is None ==> !o.races(),
        o.config.network_strategy matches Some(s) ==> (o.races() <==> same_word(
            s@,
            "happy_eyeballs"@,
        )),
{
    if let Some(s) = o.config.network_strategy {
        reveal_strlit("happy_eyeballs");
        lower_words_stay("happy_eyeballs"@);
        case_does_not_count(s@, "happy_eyeballs"@);
    }
}

/// A socket is bound to the interface that is named, else to the one that leads out where that is to
/// be found, else to none.
pub proof fn sockets_are_bound<R>(o: DirectOutbound<R>, bind: InterfaceBind)
    requires
        o.binds(bind),
    ensures
        bind is Named <==> o.default_interface is Some,
        bind matches InterfaceBind::Named(n) ==> n@ == o.default_interface->Some_0@,
        bind is Auto <==> o.default_interface is None && o.auto_detect_interface,
        bind is Free <==> o.default_interface is None && !o.auto_detect_interface,
{
}

/// In a race attempts are started in order, and one is under way until all have failed.
pub proof fn races_go_on(race: Race)
    ensures
        race.running() == race.started - race.failed,
        race.wf() && race.running() == 0 ==> race.failed == race.candidates@.len(),
        race.wf() ==> 0 <= race.running() && 1 <= race.started && race.started
            <= race.candidates@.len(),
{
}

} // verus!
