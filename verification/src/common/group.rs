//! A group of outbounds whose node is chosen by hand.

use super::interrupt::{cut_off, open_conns, ConnItem, InterruptGroup};
use super::probe::ProbeError;
use crate::status::OutboundStatus;
use crate::text::{copy_texts, text_eq, text_in, texts};
use vstd::prelude::*;

verus! {

/// What a group refuses.
#[derive(Clone, Copy, Debug, PartialEq, Eq, Structural)]
pub enum GroupError {
    /// The group has no node and no source of nodes.
    NoOutbounds,
    BadUrl(ProbeError),
    /// The group does not hold the node.
    NotContained,
    /// No outbound has this tag.
    NotFound,
}

/// The first tag, or an empty text.
pub open spec fn first_tag(tags: Seq<Seq<char>>) -> Seq<char> {
    if tags.len() > 0 {
        tags[0]
    } else {
        Seq::empty()
    }
}

/// `list` with those of `nodes` behind it that are not in it yet.
pub open spec fn with_nodes(list: Seq<Seq<char>>, nodes: Seq<Seq<char>>) -> Seq<Seq<char>>
    decreases nodes.len(),
{
    if nodes.len() == 0 {
        list
    } else {
        let before = with_nodes(list, nodes.drop_last());
        if before.contains(nodes.last()) {
            before
        } else {
            before.push(nodes.last())
        }
    }
}

proof fn pushed_contains(s: Seq<Seq<char>>, x: Seq<char>, t: Seq<char>)
    ensures
        s.push(x).contains(t) <==> (s.contains(t) || t == x),
{
    let p = s.push(x);
    assert(p[s.len() as int] == x);
    if s.contains(t) {
        let i = choose|i: int| 0 <= i < s.len() && s[i] == t;
        assert(p[i] == t);
    }
    if p.contains(t) {
        let i = choose|i: int| 0 <= i < p.len() && p[i] == t;
        assert(i == s.len() || s[i] == t);
    }
}

/// The nodes of a refreshed group start with those that it always has, in their order; none that
/// is added stands there twice; and the list holds these and the new nodes and nothing else.
pub proof fn refreshed_list(list: Seq<Seq<char>>, nodes: Seq<Seq<char>>)
    ensures
        with_nodes(list, nodes).len() >= list.len(),
        with_nodes(list, nodes).take(list.len() as int) == list,
        forall|i: int, j: int|
            list.len() <= i < with_nodes(list, nodes).len() && 0 <= j < i ==> with_nodes(
                list,
                nodes,
            )[i] != with_nodes(list, nodes)[j],
        forall|t: Seq<char>|
            with_nodes(list, nodes).contains(t) <==> (list.contains(t) || nodes.contains(t)),
    decreases nodes.len(),
{
    let all = with_nodes(list, nodes);
    if nodes.len() == 0 {
        assert(all.take(list.len() as int) =~= list);
    } else {
        let rest = nodes.drop_last();
        let before = with_nodes(list, rest);
        refreshed_list(list, rest);
        assert(all.take(list.len() as int) =~= before.take(list.len() as int));
        assert(nodes =~= rest.push(nodes.last()));
        assert forall|t: Seq<char>| all.contains(t) <==> (list.contains(t) || nodes.contains(t)) by {
            assert(nodes.contains(t) <==> (rest.contains(t) || t == nodes.last())) by {
                pushed_contains(rest, nodes.last(), t);
            }
            pushed_contains(before, nodes.last(), t);
        }
        assert forall|i: int, j: int| list.len() <= i < all.len() && 0 <= j < i implies all[i]
            != all[j] by {
            if i == before.len() {
                assert(before[j] == all[j]);
                assert(before.contains(all[j]));
            }
        }
    }
}

/// Whether a tag stands in a list.
pub fn has_tag(tags: &[String], tag: &str) -> (yes: bool)
    ensures
        yes == texts(tags@).contains(tag@),
{
    let mut i: usize = 0;
    while i < tags.len()
        invariant
            i <= tags@.len(),
            forall|j: int| 0 <= j < i ==> tags@[j]@ != tag@,
        decreases tags@.len() - i,
    {
        if text_eq(&tags[i], tag) {
            assert(texts(tags@)[i as int] == tag@);
            return true;
        }
        i += 1;
    }
    false
}

pub(crate) fn first_of(tags: &[String]) -> (tag: String)
    ensures
        tag@ == first_tag(texts(tags@)),
{
    if tags.len() > 0 {
        tags[0].clone()
    } else {
        let tag: String = String::new();
        assert(tag@ =~= Seq::empty());
        tag
    }
}

/// The nodes that a group always has, with new ones behind them.
pub(crate) fn refreshed(outbounds: &[String], current: &[String], nodes: &[String]) -> (out: Vec<String>)
    requires
        keeps_static(texts(outbounds@), texts(current@)),
    ensures
        texts(out@) == with_nodes(texts(outbounds@), texts(nodes@)),
        keeps_static(texts(outbounds@), texts(out@)),
{
    let ghost fixed = texts(outbounds@);
    let ghost added = texts(nodes@);
    let mut out: Vec<String> = Vec::new();
    let mut i: usize = 0;
    while i < outbounds.len()
        invariant
            i <= outbounds@.len(),
            fixed == texts(outbounds@),
            keeps_static(fixed, texts(current@)),
            texts(out@) == fixed.take(i as int),
        decreases outbounds@.len() - i,
    {
        let kept: bool = has_tag(current, &outbounds[i]);
        proof {
            assert(texts(current@).take(fixed.len() as int)[i as int] == fixed[i as int]);
            assert(texts(current@)[i as int] == outbounds@[i as int]@);
            assert(kept);
        }
        if kept {
            let ghost before = out@;
            out.push(outbounds[i].clone());
            assert(texts(out@) =~= texts(before).push(fixed[i as int]));
            assert(fixed.take(i + 1) =~= fixed.take(i as int).push(fixed[i as int]));
        }
        i += 1;
    }
    assert(fixed.take(i as int) =~= fixed);
    let mut k: usize = 0;
    assert(added.take(0) =~= Seq::empty());
    while k < nodes.len()
        invariant
            k <= nodes@.len(),
            added == texts(nodes@),
            texts(out@) == with_nodes(fixed, added.take(k as int)),
        decreases nodes@.len() - k,
    {
        assert(added.take(k + 1).drop_last() =~= added.take(k as int));
        assert(added.take(k + 1).last() == nodes@[k as int]@);
        if !has_tag(&out, &nodes[k]) {
            let ghost before = out@;
            out.push(nodes[k].clone());
            assert(texts(out@) =~= texts(before).push(nodes@[k as int]@));
        }
        k += 1;
    }
    assert(added.take(k as int) =~= added);
    proof {
        refreshed_list(fixed, added);
    }
    out
}

/// Whether a list starts with the nodes that a group always has.
pub open spec fn keeps_static(outbounds: Seq<Seq<char>>, all: Seq<Seq<char>>) -> bool {
    outbounds.len() <= all.len() && all.take(outbounds.len() as int) == outbounds
}

/// The place of the outbound with a tag, in a list without repeated tags.
pub fn lookup_outbound(registry: &[String], tag: &str) -> (res: Result<usize, GroupError>)
    ensures
        match res {
            Ok(i) => i < registry@.len() && registry@[i as int]@ == tag@,
            Err(e) => e == GroupError::NotFound && !texts(registry@).contains(tag@),
        },
{
    let mut i: usize = 0;
    while i < registry.len()
        invariant
            i <= registry@.len(),
            forall|j: int| 0 <= j < i ==> registry@[j]@ != tag@,
        decreases registry@.len() - i,
    {
        if text_eq(&registry[i], tag) {
            return Ok(i);
        }
        i += 1;
    }
    Err(GroupError::NotFound)
}

/// The settings of a group whose node is chosen by hand.
#[derive(Clone, Debug)]
pub struct SelectorOutboundConfig {
    pub tag: String,
    pub outbounds: Vec<String>,
    pub default: Option<String>,
    /// Whether a choice cuts off the connections from outside too.
    pub interrupt_existing_connections: bool,
}

/// What follows a choice that changed something: the choice is kept for the next start, and
/// connections are cut off.
#[derive(Debug)]
pub struct Switch {
    /// The group and the tag to keep.
    pub store: (String, String),
    /// The connections to signal.
    pub signals: Vec<u64>,
}

/// A group whose node is chosen by hand.
pub struct SelectorOutbound {
    pub config: SelectorOutboundConfig,
    /// The nodes: first those that the group always has.
    pub all_tags: Vec<String>,
    pub selected: String,
    pub interrupt_group: InterruptGroup,
}

/// The node that is chosen at the start.
pub open spec fn first_choice(
    saved: Option<Seq<char>>,
    default: Option<Seq<char>>,
    tags: Seq<Seq<char>>,
) -> Seq<char> {
    match saved {
        Some(s) if tags.contains(s) => s,
        _ => match default {
            Some(d) => d,
            None => first_tag(tags),
        },
    }
}

/// The choice after a refresh: the first node where the chosen one is gone.
pub open spec fn kept_choice(selected: Seq<char>, tags: Seq<Seq<char>>) -> Seq<char> {
    if selected.len() > 0 && !tags.contains(selected) && tags.len() > 0 {
        tags[0]
    } else {
        selected
    }
}

impl SelectorOutbound {
    /// The nodes of the group.
    pub open spec fn tags(self) -> Seq<Seq<char>> {
        texts(self.all_tags@)
    }

    /// The list starts with the nodes that the group always has.
    pub open spec fn wf(self) -> bool {
        keeps_static(texts(self.config.outbounds@), self.tags())
    }

    /// The node in use.
    pub open spec fn current(self) -> Seq<char> {
        if self.tags().contains(self.selected@) {
            self.selected@
        } else {
            first_tag(self.tags())
        }
    }

    /// A group with the choice that was kept, where there is one.
    pub fn new(config: SelectorOutboundConfig, saved: Option<String>) -> (group: SelectorOutbound)
        ensures
            group.wf(),
            group.config == config,
            group.tags() == texts(config.outbounds@),
            group.selected@ == first_choice(
                text_in(saved),
                text_in(config.default),
                texts(config.outbounds@),
            ),
            group.interrupt_group.conns@.len() == 0,
    {
        let all_tags: Vec<String> = copy_texts(&config.outbounds);
        let selected: String = match saved {
            Some(s) if has_tag(&all_tags, &s) => s,
            _ => match &config.default {
                Some(d) => d.clone(),
                None => first_of(&all_tags),
            },
        };
        assert(texts(all_tags@).take(all_tags@.len() as int) =~= texts(all_tags@));
        SelectorOutbound { config, all_tags, selected, interrupt_group: InterruptGroup::new() }
    }

    /// Takes the nodes that a source has now in place of those that it had. Where the chosen node
    /// is gone, the first one is chosen.
    pub fn refresh_provider_nodes(&mut self, provider_nodes: &[String])
        requires
            old(self).wf(),
        ensures
            final(self).wf(),
            final(self).config == old(self).config,
            final(self).interrupt_group == old(self).interrupt_group,
            final(self).tags() == with_nodes(
                texts(old(self).config.outbounds@),
                texts(provider_nodes@),
            ),
            final(self).selected@ == kept_choice(old(self).selected@, final(self).tags()),
    {
        let all: Vec<String> = refreshed(&self.config.outbounds, &self.all_tags, provider_nodes);
        if self.selected.as_str().unicode_len() > 0 && !has_tag(&all, &self.selected) && all.len()
            > 0 {
            self.selected = all[0].clone();
        }
        self.all_tags = all;
    }

    /// The tag of the node in use.
    pub fn current_tag(&self) -> (tag: String)
        ensures
            tag@ == self.current(),
    {
        if has_tag(&self.all_tags, &self.selected) {
            self.selected.clone()
        } else {
            first_of(&self.all_tags)
        }
    }

    /// A copy of the nodes.
    pub fn all_tags_snapshot(&self) -> (tags: Vec<String>)
        ensures
            texts(tags@) == self.tags(),
    {
        copy_texts(&self.all_tags)
    }

    /// Chooses a node of the group. `closed` are the connections that have ended.
    pub fn set_selected(&mut self, tag: &str, closed: &[u64]) -> (res: Result<
        Option<Switch>,
        GroupError,
    >)
        ensures
            final(self).config == old(self).config,
            final(self).all_tags == old(self).all_tags,
            res is Err <==> !old(self).tags().contains(tag@),
            res is Err ==> res == Err::<Option<Switch>, GroupError>(GroupError::NotContained)
                && *final(self) == *old(self),
            res is Ok ==> final(self).selected@ == tag@,
            res is Ok ==> (res->Ok_0 is Some <==> old(self).selected@ != tag@),
            res is Ok && res->Ok_0 is None ==> final(self).interrupt_group == old(
                self,
            ).interrupt_group,
            res is Ok && res->Ok_0 is Some ==> {
                let external = old(self).config.interrupt_existing_connections;
                let open = open_conns(
                    old(self).interrupt_group.conns@,
                    closed@,
                );
                &&& res->Ok_0->Some_0.store.0@ == old(self).config.tag@
                &&& res->Ok_0->Some_0.store.1@ == tag@
                &&& res->Ok_0->Some_0.signals@ == open.filter(
                    |c: ConnItem| cut_off(c, external),
                ).map_values(|c: ConnItem| c.id)
                &&& final(self).interrupt_group.conns@ == open.filter(
                    |c: ConnItem| !cut_off(c, external),
                )
            },
    {
        if !has_tag(&self.all_tags, tag) {
            return Err(GroupError::NotContained);
        }
        if text_eq(&self.selected, tag) {
            return Ok(None);
        }
        self.selected = tag.to_string();
        let signals: Vec<u64> = self.interrupt_group.interrupt(
            self.config.interrupt_existing_connections,
            closed,
        );
        Ok(Some(Switch { store: (self.config.tag.clone(), tag.to_string()), signals }))
    }

    /// What the group says about itself.
    pub fn status(&self) -> (s: OutboundStatus)
        ensures
            s.name@ == self.config.tag@,
            s.kind@ == "Selector"@,
            text_in(s.now) == Some(self.current()),
            texts(s.all@) == self.tags(),
            s.history@.len() == 0,
    {
        OutboundStatus {
            name: self.config.tag.clone(),
            kind: "Selector".to_string(),
            now: Some(self.current_tag()),
            all: self.all_tags_snapshot(),
            history: Vec::new(),
        }
    }
}

/// The node in use is a node of the group, as long as the group has any.
pub proof fn current_is_a_node(group: SelectorOutbound)
    requires
        group.tags().len() > 0,
    ensures
        group.tags().contains(group.current()),
{
    assert(group.tags()[0] == first_tag(group.tags()));
}

/// A chosen node that is still there after a refresh stays chosen, and a choice that was made
/// names a node of the group after the refresh, as long as the group has any.
pub proof fn refresh_choice(selected: Seq<char>, tags: Seq<Seq<char>>)
    ensures
        tags.contains(selected) ==> kept_choice(selected, tags) == selected,
        selected.len() > 0 && tags.len() > 0 ==> tags.contains(kept_choice(selected, tags)),
{
    if tags.len() > 0 {
        assert(tags.contains(tags[0]));
    }
}

} // verus!
