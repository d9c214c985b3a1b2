//! A group of outbounds whose node is chosen by its delay.

use super::group::{
    first_of, first_tag, has_tag, keeps_static, refreshed, with_nodes, GroupError,
};
use super::probe::{parse_probe_url, probe_target, ProbeError};
use crate::status::{OutboundDelay, OutboundStatus};
use crate::text::{copy_texts, text_eq, text_in, texts};
use vstd::prelude::*;

verus! {

/// The settings of a group whose node is chosen by its delay.
#[derive(Clone, Debug)]
pub struct UrlTestOutboundConfig {
    pub tag: String,
    pub outbounds: Vec<String>,
    /// The sources of further nodes.
    pub providers: Vec<String>,
    pub url: String,
    /// How long a measurement holds, in milliseconds.
    pub interval_ms: u64,
    /// By how many milliseconds another node may be faster without being chosen.
    pub tolerance: u64,
}

/// What a measurement gave: a delay in milliseconds, or none where the node failed.
#[derive(Clone, Debug)]
pub struct Measured {
    pub tag: String,
    pub latency: Option<u64>,
}

/// What was measured of a tag: what stands last for it.
pub open spec fn measured_of(results: Seq<Measured>, tag: Seq<char>) -> Option<Option<u64>>
    decreases results.len(),
{
    if results.len() == 0 {
        None
    } else if results.last().tag@ == tag {
        Some(results.last().latency)
    } else {
        measured_of(results.drop_last(), tag)
    }
}

/// The delay of a tag, where it answered.
pub open spec fn delay_of(results: Seq<Measured>, tag: Seq<char>) -> Option<u64> {
    match measured_of(results, tag) {
        Some(l) => l,
        None => None,
    }
}

/// Whether any node answered.
pub open spec fn any_answered(results: Seq<Measured>) -> bool {
    exists|t: Seq<char>| #[trigger] delay_of(results, t) is Some
}

/// Whether a node answered and no other answered sooner.
pub open spec fn is_fastest(results: Seq<Measured>, tag: Seq<char>) -> bool {
    &&& delay_of(results, tag) is Some
    &&& forall|t: Seq<char>|
        (#[trigger] delay_of(results, t)) is Some ==> delay_of(results, tag)->Some_0 <= delay_of(
            results,
            t,
        )->Some_0
}

/// Whether a node answered about as soon as the fastest.
pub open spec fn fast_enough(results: Seq<Measured>, tag: Seq<char>, tolerance: nat) -> bool {
    &&& delay_of(results, tag) is Some
    &&& forall|t: Seq<char>|
        (#[trigger] delay_of(results, t)) is Some ==> delay_of(results, tag)->Some_0 <= delay_of(
            results,
            t,
        )->Some_0 + tolerance
}

/// Whether `chosen` may follow on `current` after a measurement: without an answer nothing
/// changes, a node that is fast enough stays, and else one of the fastest takes its place.
pub open spec fn may_follow(
    current: Option<Seq<char>>,
    results: Seq<Measured>,
    tolerance: nat,
    chosen: Option<Seq<char>>,
) -> bool {
    if !any_answered(results) {
        chosen == current
    } else if current is Some && fast_enough(results, current->Some_0, tolerance) {
        chosen == current
    } else {
        chosen is Some && is_fastest(results, chosen->Some_0)
    }
}

proof fn measured_at(results: Seq<Measured>, tag: Seq<char>, i: int)
    requires
        0 <= i < results.len(),
        results[i].tag@ == tag,
        forall|j: int| i < j < results.len() ==> (#[trigger] results[j]).tag@ != tag,
    ensures
        measured_of(results, tag) == Some(results[i].latency),
    decreases results.len(),
{
    if i < results.len() - 1 {
        measured_at(results.drop_last(), tag, i);
    }
}

proof fn measured_place(results: Seq<Measured>, tag: Seq<char>) -> (i: int)
    requires
        measured_of(results, tag) is Some,
    ensures
        0 <= i < results.len(),
        results[i].tag@ == tag,
        measured_of(results, tag) == Some(results[i].latency),
        forall|j: int| i < j < results.len() ==> (#[trigger] results[j]).tag@ != tag,
    decreases results.len(),
{
    if results.last().tag@ == tag {
        results.len() - 1
    } else {
        let i = measured_place(results.drop_last(), tag);
        assert forall|j: int| i < j < results.len() implies (#[trigger] results[j]).tag@ != tag by {
            if j < results.len() - 1 {
                assert(results.drop_last()[j] == results[j]);
            }
        }
        i
    }
}

fn find_measured(results: &[Measured], tag: &str) -> (latency: Option<Option<u64>>)
    ensures
        latency == measured_of(results@, tag@),
{
    let mut n: usize = results.len();
    assert(results@.take(n as int) =~= results@);
    while n > 0
        invariant
            n <= results@.len(),
            measured_of(results@, tag@) == measured_of(results@.take(n as int), tag@),
        decreases n,
    {
        assert(results@.take(n as int).drop_last() =~= results@.take(n - 1));
        assert(results@.take(n as int).last() == results@[n - 1]);
        if text_eq(&results[n - 1].tag, tag) {
            return Some(results[n - 1].latency);
        }
        n -= 1;
    }
    None
}

/// Whether no later entry has the tag of this one.
fn is_last(results: &[Measured], i: usize) -> (yes: bool)
    requires
        i < results@.len(),
    ensures
        yes == forall|j: int|
            i < j < results@.len() ==> (#[trigger] results@[j]).tag@ != results@[i as int].tag@,
{
    assert(i + 1 <= results.len());
    let mut j: usize = i + 1;
    while j < results.len()
        invariant
            i < j <= results@.len(),
            forall|k: int| i < k < j ==> (#[trigger] results@[k]).tag@ != results@[i as int].tag@,
        decreases results@.len() - j,
    {
        if text_eq(&results[j].tag, &results[i].tag) {
            assert(results@[j as int].tag@ == results@[i as int].tag@);
            return false;
        }
        j += 1;
    }
    true
}

/// The delays of the nodes that answered, one for each tag.
pub fn delays(results: &[Measured]) -> (out: Vec<OutboundDelay>)
    ensures
        forall|i: int|
            0 <= i < out@.len() ==> delay_of(results@, (#[trigger] out@[i]).name@) == Some(
                out@[i].delay,
            ),
        forall|t: Seq<char>|
            (#[trigger] delay_of(results@, t)) is Some ==> exists|i: int|
                0 <= i < out@.len() && (#[trigger] out@[i]).name@ == t,
        forall|i: int, j: int| 0 <= i < j < out@.len() ==> out@[i].name@ != out@[j].name@,
{
    let mut out: Vec<OutboundDelay> = Vec::new();
    let mut i: usize = 0;
    while i < results.len()
        invariant
            i <= results@.len(),
            forall|k: int|
                0 <= k < out@.len() ==> delay_of(results@, (#[trigger] out@[k]).name@) == Some(
                    out@[k].delay,
                ) && exists|j: int|
                    0 <= j < i && (#[trigger] results@[j]).tag@ == out@[k].name@ && (forall|m: int|
                        j < m < results@.len() ==> (#[trigger] results@[m]).tag@
                            != results@[j].tag@),
            forall|j: int|
                0 <= j < i && (#[trigger] results@[j]).latency is Some && (forall|m: int|
                    j < m < results@.len() ==> (#[trigger] results@[m]).tag@ != results@[j].tag@)
                    ==> exists|k: int|
                    0 <= k < out@.len() && (#[trigger] out@[k]).name@ == results@[j].tag@,
            forall|a: int, b: int| 0 <= a < b < out@.len() ==> out@[a].name@ != out@[b].name@,
        decreases results@.len() - i,
    {
        let ghost before = out@;
        if let Some(delay) = results[i].latency {
            if is_last(results, i) {
                out.push(OutboundDelay { name: results[i].tag.clone(), delay });
                proof {
                    measured_at(results@, results@[i as int].tag@, i as int);
                    assert(out@[before.len() as int].name@ == results@[i as int].tag@);
                    assert forall|k: int| 0 <= k < before.len() implies out@[k].name@
                        != results@[i as int].tag@ by {
                        assert(before[k] == out@[k]);
                        assert(results@[i as int].tag@ == results@[i as int].tag@);
                    }
                }
            }
        }
        assert forall|j: int|
            0 <= j <= i && (#[trigger] results@[j]).latency is Some && (forall|m: int|
                j < m < results@.len() ==> (#[trigger] results@[m]).tag@
                    != results@[j].tag@) implies exists|k: int|
            0 <= k < out@.len() && (#[trigger] out@[k]).name@ == results@[j].tag@ by {
            if j < i {
                let k = choose|k: int|
                    0 <= k < before.len() && (#[trigger] before[k]).name@ == results@[j].tag@;
                assert(out@[k] == before[k]);
            }
        }
        i += 1;
    }
    assert forall|t: Seq<char>| (#[trigger] delay_of(results@, t)) is Some implies exists|k: int|
        0 <= k < out@.len() && (#[trigger] out@[k]).name@ == t by {
        let j = measured_place(results@, t);
        assert(results@[j].latency is Some);
    }
    out
}

/// Chooses a node after a measurement.
pub fn choose_node(current: &Option<String>, results: &[Measured], tolerance: u64) -> (chosen:
    Option<String>)
    ensures
        may_follow(text_in(*current), results@, tolerance as nat, text_in(chosen)),
{
    let answered: Vec<OutboundDelay> = delays(results);
    if answered.len() == 0 {
        return match current {
            Some(c) => Some(c.clone()),
            None => None,
        };
    }
    assert(delay_of(results@, answered@[0].name@) is Some);
    let mut best: usize = 0;
    let mut i: usize = 1;
    while i < answered.len()
        invariant
            best < i <= answered@.len(),
            forall|j: int| 0 <= j < i ==> answered@[best as int].delay <= answered@[j].delay,
        decreases answered@.len() - i,
    {
        if answered[i].delay < answered[best].delay {
            best = i;
        }
        i += 1;
    }
    let ghost top = answered@[best as int].name@;
    let least: u64 = answered[best].delay;
    proof {
        assert(delay_of(results@, top) == Some(least));
        assert forall|t: Seq<char>| (#[trigger] delay_of(results@, t)) is Some implies least
            <= delay_of(results@, t)->Some_0 by {
            let j = choose|j: int| 0 <= j < answered@.len() && (#[trigger] answered@[j]).name@ == t;
            assert(answered@[best as int].delay <= answered@[j].delay);
        }
        assert(is_fastest(results@, top));
    }
    if let Some(c) = current {
        if let Some(Some(l)) = find_measured(results, c) {
            assert(delay_of(results@, c@) == Some(l));
            if l - least <= tolerance {
                assert(fast_enough(results@, c@, tolerance as nat));
                return Some(c.clone());
            }
            assert(delay_of(results@, top) is Some);
            assert(!fast_enough(results@, c@, tolerance as nat));
        }
    }
    Some(answered[best].name.clone())
}

/// A group whose node is chosen by its delay.
pub struct UrlTestOutbound {
    pub config: UrlTestOutboundConfig,
    /// The nodes: first those that the group always has.
    pub all_tags: Vec<String>,
    pub selected: Option<String>,
    pub latencies: Vec<Measured>,
    /// When the last measurement began, in milliseconds.
    pub last_check: Option<u64>,
    /// Whether a measurement is under way.
    pub is_checking: bool,
}

/// Whether a measurement is due.
pub open spec fn due(last_check: Option<u64>, now: nat, interval: nat) -> bool {
    match last_check {
        None => true,
        Some(last) => now >= last + interval,
    }
}

impl UrlTestOutbound {
    /// The nodes of the group.
    pub open spec fn tags(self) -> Seq<Seq<char>> {
        texts(self.all_tags@)
    }

    /// The list starts with the nodes that the group always has.
    pub open spec fn wf(self) -> bool {
        keeps_static(texts(self.config.outbounds@), self.tags())
    }

    /// The node in use.
    pub open spec fn current(self) -> Seq<char> {
        match self.selected {
            Some(s) => s@,
            None => first_tag(self.tags()),
        }
    }

    /// Whether a measurement is to be started: one is due, and none is under way.
    pub open spec fn starts(self, now: nat) -> bool {
        due(self.last_check, now, self.config.interval_ms as nat) && !self.is_checking
    }

    /// A group that has measured nothing yet.
    pub fn new(config: UrlTestOutboundConfig) -> (res: Result<UrlTestOutbound, GroupError>)
        ensures
            res is Err <==> (config.outbounds@.len() == 0 && config.providers@.len() == 0)
                || probe_target(config.url@) is Err,
            match res {
                Err(GroupError::NoOutbounds) => config.outbounds@.len() == 0
                    && config.providers@.len() == 0,
                Err(GroupError::BadUrl(e)) => !(config.outbounds@.len() == 0
                    && config.providers@.len() == 0) && probe_target(config.url@) == Err::<
                    (Seq<char>, nat),
                    ProbeError,
                >(e),
                Err(_) => false,
                Ok(group) => {
                    &&& group.wf()
                    &&& group.config == config
                    &&& group.tags() == texts(config.outbounds@)
                    &&& group.selected is None
                    &&& group.latencies@.len() == 0
                    &&& group.last_check is None
                    &&& !group.is_checking
                },
            },
    {
        if config.outbounds.len() == 0 && config.providers.len() == 0 {
            return Err(GroupError::NoOutbounds);
        }
        if let Err(e) = parse_probe_url(&config.url) {
            return Err(GroupError::BadUrl(e));
        }
        let all_tags: Vec<String> = copy_texts(&config.outbounds);
        assert(texts(all_tags@).take(all_tags@.len() as int) =~= texts(all_tags@));
        Ok(
            UrlTestOutbound {
                config,
                all_tags,
                selected: None,
                latencies: Vec::new(),
                last_check: None,
                is_checking: false,
            },
        )
    }

    /// Takes the nodes that a source has now in place of those that it had. A chosen node that is
    /// gone is forgotten, and the next measurement is due at once.
    pub fn refresh_provider_nodes(&mut self, provider_nodes: &[String])
        requires
            old(self).wf(),
        ensures
            final(self).wf(),
            final(self).config == old(self).config,
            final(self).tags() == with_nodes(
                texts(old(self).config.outbounds@),
                texts(provider_nodes@),
            ),
            final(self).selected == match old(self).selected {
                Some(s) if final(self).tags().contains(s@) => Some(s),
                _ => None,
            },
            final(self).last_check is None,
            final(self).latencies == old(self).latencies,
            final(self).is_checking == old(self).is_checking,
    {
        let all: Vec<String> = refreshed(&self.config.outbounds, &self.all_tags, provider_nodes);
        let gone: bool = match &self.selected {
            Some(s) => !has_tag(&all, s),
            None => false,
        };
        if gone {
            self.selected = None;
        }
        self.all_tags = all;
        self.last_check = None;
    }

    /// Whether a measurement is due.
    pub fn should_check(&self, now: u64) -> (yes: bool)
        ensures
            yes == due(self.last_check, now as nat, self.config.interval_ms as nat),
    {
        match self.last_check {
            None => true,
            Some(last) => now >= last && now - last >= self.config.interval_ms,
        }
    }

    /// The tag of the node in use, and whether a measurement is to be started now.
    pub fn current_tag(&mut self, now: u64) -> (res: (String, bool))
        ensures
            res.0@ == old(self).current(),
            res.1 == old(self).starts(now as nat),
            *final(self) == (UrlTestOutbound {
                is_checking: old(self).is_checking || res.1,
                ..*old(self)
            }),
    {
        let start: bool = self.should_check(now) && !self.is_checking;
        if start {
            self.is_checking = true;
        }
        let tag: String = match &self.selected {
            Some(s) => s.clone(),
            None => first_of(&self.all_tags),
        };
        (tag, start)
    }

    /// A measurement begins.
    pub fn begin_check(&mut self, now: u64)
        ensures
            *final(self) == (UrlTestOutbound { last_check: Some(now), ..*old(self) }),
    {
        self.last_check = Some(now);
    }

    /// A measurement has ended.
    pub fn finish_check(&mut self, results: Vec<Measured>)
        ensures
            final(self).config == old(self).config,
            final(self).all_tags == old(self).all_tags,
            final(self).last_check == old(self).last_check,
            final(self).latencies == results,
            !final(self).is_checking,
            may_follow(
                text_in(old(self).selected),
                results@,
                old(self).config.tolerance as nat,
                text_in(final(self).selected),
            ),
    {
        self.selected = choose_node(&self.selected, &results, self.config.tolerance);
        self.latencies = results;
        self.is_checking = false;
    }

    /// Chooses a node of the group by hand.
    pub fn force_selected(&mut self, tag: &str) -> (res: Result<(), GroupError>)
        ensures
            res == if old(self).tags().contains(tag@) {
                Ok::<(), GroupError>(())
            } else {
                Err::<(), GroupError>(GroupError::NotContained)
            },
            text_in(final(self).selected) == if res is Ok {
                Some(tag@)
            } else {
                text_in(old(self).selected)
            },
            *final(self) == (UrlTestOutbound { selected: final(self).selected, ..*old(self) }),
    {
        if !has_tag(&self.all_tags, tag) {
            return Err(GroupError::NotContained);
        }
        self.selected = Some(tag.to_string());
        Ok(())
    }

    /// What the group says about itself.
    pub fn status_snapshot(&self) -> (s: OutboundStatus)
        ensures
            s.name@ == self.config.tag@,
            s.kind@ == "URLTest"@,
            text_in(s.now) == if self.selected is None && self.tags().len() == 0 {
                None::<Seq<char>>
            } else {
                Some(self.current())
            },
            texts(s.all@) == self.tags(),
            forall|i: int|
                0 <= i < s.history@.len() ==> delay_of(
                    self.latencies@,
                    (#[trigger] s.history@[i]).name@,
                ) == Some(s.history@[i].delay),
            forall|t: Seq<char>|
                (#[trigger] delay_of(self.latencies@, t)) is Some ==> exists|i: int|
                    0 <= i < s.history@.len() && (#[trigger] s.history@[i]).name@ == t,
            forall|i: int, j: int|
                0 <= i < j < s.history@.len() ==> s.history@[i].name@ != s.history@[j].name@,
    {
        let now: Option<String> = match &self.selected {
            Some(s) => Some(s.clone()),
            None => if self.all_tags.len() > 0 {
                Some(self.all_tags[0].clone())
            } else {
                None
            },
        };
        OutboundStatus {
            name: self.config.tag.clone(),
            kind: "URLTest".to_string(),
            now,
            all: copy_texts(&self.all_tags),
            history: delays(&self.latencies),
        }
    }
}

/// Measurements come again: once one has ended, the next is started as soon as the interval has
/// passed since it began, and not before.
pub proof fn measured_again(group: UrlTestOutbound, began: u64, now: nat)
    requires
        group.last_check == Some(began),
        !group.is_checking,
    ensures
        group.starts(now) <==> now >= began + group.config.interval_ms,
{
}

/// While a measurement is under way, no other is started.
pub proof fn one_at_a_time(group: UrlTestOutbound, now: nat)
    requires
        group.is_checking,
    ensures
        !group.starts(now),
{
}

/// A fastest node that is in use stays in use, whatever the tolerance.
pub proof fn fastest_stays(
    current: Seq<char>,
    results: Seq<Measured>,
    tolerance: nat,
    chosen: Option<Seq<char>>,
)
    requires
        is_fastest(results, current),
        may_follow(Some(current), results, tolerance, chosen),
    ensures
        chosen == Some(current),
{
    assert(delay_of(results, current) is Some);
    assert(fast_enough(results, current, tolerance));
}

/// Whatever was in use, the node that follows on a measurement with an answer is no more than the
/// tolerance slower than any node.
pub proof fn chosen_is_fast(
    current: Option<Seq<char>>,
    results: Seq<Measured>,
    tolerance: nat,
    chosen: Option<Seq<char>>,
)
    requires
        any_answered(results),
        may_follow(current, results, tolerance, chosen),
    ensures
        chosen is Some,
        fast_enough(results, chosen->Some_0, tolerance),
{
}

} // verus!
