//! Groups of outbounds: which one is chosen, and which connections a new choice cuts off.

use crate::common::buffer::at_most;
use crate::common::group::{first_choice, kept_choice, with_nodes, SelectorOutbound};
use crate::common::interrupt::{cut_off, open_conns, ConnItem, RelayState, Way};
use crate::common::url_test::{
    any_answered, delay_of, due, fast_enough, is_fastest, may_follow, measured_of, Measured,
    UrlTestOutbound,
};
use vstd::prelude::*;

verus! {

/// The first choice is the saved one where it is a node of the group, else the one of the settings,
/// else the first node, and nothing where there is none.
pub proof fn first_choices(saved: Seq<char>, default: Seq<char>, tags: Seq<Seq<char>>)
    ensures
        tags.contains(saved) ==> first_choice(Some(saved), Some(default), tags) == saved
            && first_choice(Some(saved), None, tags) == saved,
        !tags.contains(saved) ==> first_choice(Some(saved), Some(default), tags) == default
            && first_choice(Some(saved), None, tags) == first_choice(None, None, tags),
        first_choice(None, Some(default), tags) == default,
        tags.len() > 0 ==> first_choice(None, None, tags) == tags[0],
        tags.len() == 0 ==> first_choice(None, None, tags).len() == 0,
{
}

/// The node in use is the chosen one as long as the group has it, else the first.
pub proof fn node_in_use(group: SelectorOutbound, i: int)
    ensures
        0 <= i < group.all_tags@.len() && group.all_tags@[i]@ == group.selected@ ==> group.current()
            == group.selected@,
        (forall|j: int|
            0 <= j < group.all_tags@.len() ==> (#[trigger] group.all_tags@[j])@
                != group.selected@) && group.all_tags@.len() > 0 ==> group.current()
            == group.all_tags@[0]@,
        group.all_tags@.len() == 0 ==> group.current().len() == 0,
{
    let tags = group.tags();
    assert(tags.len() == group.all_tags@.len());
    if 0 <= i < group.all_tags@.len() && group.all_tags@[i]@ == group.selected@ {
        assert(tags[i] == group.selected@);
    }
    if tags.contains(group.selected@) {
        let k = choose|k: int| 0 <= k < tags.len() && tags[k] == group.selected@;
        assert(group.all_tags@[k]@ == group.selected@);
    }
}

/// After a refresh a choice that is gone gives way to the first node; with no node, or with nothing
/// chosen, the choice stays as it is.
pub proof fn choices_are_kept(selected: Seq<char>, tags: Seq<Seq<char>>)
    ensures
        tags.contains(selected) ==> kept_choice(selected, tags) == selected,
        tags.len() == 0 || selected.len() == 0 ==> kept_choice(selected, tags) == selected,
        tags.len() > 0 && selected.len() > 0 && !tags.contains(selected) ==> kept_choice(
            selected,
            tags,
        ) == tags[0],
{
}

/// A node that the group has already is not added again; one that it has not comes last.
pub proof fn nodes_are_added_once(list: Seq<Seq<char>>, nodes: Seq<Seq<char>>, node: Seq<char>)
    ensures
        with_nodes(list, Seq::empty()) == list,
        with_nodes(list, nodes).contains(node) ==> with_nodes(list, nodes.push(node)) == with_nodes(
            list,
            nodes,
        ),
        !with_nodes(list, nodes).contains(node) ==> with_nodes(list, nodes.push(node))
            == with_nodes(list, nodes).push(node),
{
    assert(nodes.push(node).drop_last() =~= nodes);
}

/// A later measurement of a node replaces an earlier one.
pub proof fn last_measurement_counts(results: Seq<Measured>, m: Measured, tag: Seq<char>)
    ensures
        measured_of(Seq::empty(), tag) is None,
        m.tag@ == tag ==> measured_of(results.push(m), tag) == Some(m.latency),
        m.tag@ != tag ==> measured_of(results.push(m), tag) == measured_of(results, tag),
{
    assert(results.push(m).drop_last() =~= results);
}

/// A node is left only for the fastest, and only where it did not answer or is slower than another
/// by more than the tolerance. Where no node answered the choice stays.
pub proof fn choices_follow_the_delays(
    current: Option<Seq<char>>,
    results: Seq<Measured>,
    tolerance: nat,
    chosen: Option<Seq<char>>,
    tag: Seq<char>,
    delay: u64,
)
    requires
        may_follow(current, results, tolerance, chosen),
    ensures
        measured_of(results, tag) == Some(Some(delay)) ==> chosen is Some && (measured_of(
            results,
            chosen->Some_0,
        ) matches Some(Some(d)) && d <= delay + tolerance && (chosen != current ==> d <= delay)),
        chosen != current ==> chosen is Some && (measured_of(results, chosen->Some_0) matches Some(
            Some(best),
        ) && (current matches Some(c) ==> (measured_of(results, c) matches Some(Some(d)) ==> best
            + tolerance < d))),
        (forall|t: Seq<char>|
            !((#[trigger] measured_of(results, t)) matches Some(Some(_)))) ==> chosen == current,
{
    if measured_of(results, tag) == Some(Some(delay)) {
        assert(delay_of(results, tag) == Some(delay));
        assert(any_answered(results));
    }
    if chosen != current {
        let best = chosen->Some_0;
        assert(is_fastest(results, best));
        assert(delay_of(results, best) is Some);
        if let Some(c) = current {
            if let Some(Some(d)) = measured_of(results, c) {
                assert(delay_of(results, c) == Some(d));
                assert(!fast_enough(results, c, tolerance));
                let t = choose|t: Seq<char>|
                    #![trigger delay_of(results, t)]
                    delay_of(results, t) is Some && d > delay_of(results, t)->Some_0 + tolerance;
                assert(delay_of(results, t) is Some);
            }
        }
    }
    if any_answered(results) {
        let t = choose|t: Seq<char>| #[trigger] delay_of(results, t) is Some;
        assert(measured_of(results, t) matches Some(Some(_)));
    }
}

/// Nodes are measured at first, and again once the interval has passed, but never twice at a time.
pub proof fn measurements_are_due(group: UrlTestOutbound, now: nat, last: u64, interval: nat)
    ensures
        due(None, now, interval),
        due(Some(last), now, interval) <==> last + interval <= now,
        group.is_checking ==> !group.starts(now),
        !group.is_checking && group.last_check is None ==> group.starts(now),
        !group.is_checking && group.last_check == Some(last) ==> (group.starts(now) <==> last
            + group.config.interval_ms <= now),
        group.selected matches Some(s) ==> group.current() == s@,
        group.selected is None && group.all_tags@.len() > 0 ==> group.current()
            == group.all_tags@[0]@,
{
}

proof fn kept_were_there(conns: Seq<ConnItem>, p: spec_fn(ConnItem) -> bool, c: ConnItem)
    requires
        conns.filter(p).contains(c),
    ensures
        conns.contains(c),
    decreases conns.len(),
{
    reveal(Seq::filter);
    if conns.len() > 0 {
        let front = conns.drop_last();
        if p(conns.last()) && c == conns.last() {
            assert(conns[conns.len() - 1] == c);
        } else {
            let i = choose|i: int| 0 <= i < conns.filter(p).len() && conns.filter(p)[i] == c;
            assert(front.filter(p)[i] == c);
            kept_were_there(front, p, c);
            let j = choose|j: int| 0 <= j < front.len() && front[j] == c;
            assert(conns[j] == c);
        }
    }
}

/// An interruption cuts off the connections from within, and those from outside only where it is
/// meant for them too. Connections that have ended are no longer in the group.
pub proof fn interruptions_cut_off(
    conns: Seq<ConnItem>,
    closed: Seq<u64>,
    c: ConnItem,
    external: bool,
)
    ensures
        open_conns(conns, closed).contains(c) <==> conns.contains(c) && !closed.contains(c.id),
        !c.is_external ==> cut_off(c, external),
        c.is_external ==> (cut_off(c, external) <==> external),
{
    broadcast use vstd::seq_lib::group_filter_ensures;

    let p = |x: ConnItem| !closed.contains(x.id);
    let open = conns.filter(p);
    assert(open == open_conns(conns, closed));
    if conns.contains(c) && !closed.contains(c.id) {
        assert(p(c));
        let i = choose|i: int| 0 <= i < conns.len() && conns[i] == c;
        assert(p(conns[i]));
        assert(open.contains(c));
    }
    if open.contains(c) {
        let i = choose|i: int| 0 <= i < open.len() && open[i] == c;
        assert(p(open[i]));
        kept_were_there(conns, p, c);
    }
}

/// A relay counts each way for itself and is done when both ways have ended.
pub proof fn ways_are_apart(s: RelayState)
    ensures
        s.bytes(Way::Up) == s.up_bytes,
        s.bytes(Way::Down) == s.dn_bytes,
        s.ended(Way::Up) == s.up_done,
        s.ended(Way::Down) == s.dn_done,
        s.done() <==> s.ended(Way::Up) && s.ended(Way::Down),
{
}

/// No more bytes are handed out than are asked for and than there are, and as many as that.
pub proof fn reads_are_bounded(n: nat, limit: nat)
    ensures
        at_most(n, limit) <= n,
        at_most(n, limit) <= limit,
        at_most(n, limit) == n || at_most(n, limit) == limit,
{
}

} // verus!
