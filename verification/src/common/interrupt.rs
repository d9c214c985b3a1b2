//! Connections that a group can cut off, and the count of what they carried.

use vstd::prelude::*;

verus! {

/// A connection that a group knows.
#[derive(Clone, Copy, Debug, PartialEq, Eq, Structural)]
pub struct ConnItem {
    /// The number by which the signal for the connection is found.
    pub id: u64,
    /// Whether the connection came from outside.
    pub is_external: bool,
}

/// The connections of a group that are still open.
pub struct InterruptGroup {
    pub conns: Vec<ConnItem>,
}

/// The connections that have not ended.
pub open spec fn open_conns(conns: Seq<ConnItem>, closed: Seq<u64>) -> Seq<ConnItem> {
    conns.filter(|c: ConnItem| !closed.contains(c.id))
}

/// Whether a connection is cut off.
pub open spec fn cut_off(c: ConnItem, interrupt_external: bool) -> bool {
    !c.is_external || interrupt_external
}

fn is_closed(closed: &[u64], id: u64) -> (yes: bool)
    ensures
        yes == closed@.contains(id),
{
    let mut i: usize = 0;
    while i < closed.len()
        invariant
            i <= closed@.len(),
            forall|j: int| 0 <= j < i ==> closed@[j] != id,
        decreases closed@.len() - i,
    {
        if closed[i] == id {
            assert(closed@[i as int] == id);
            return true;
        }
        i += 1;
    }
    false
}

impl InterruptGroup {
    /// A group without connections.
    pub fn new() -> (group: InterruptGroup)
        ensures
            group.conns@.len() == 0,
    {
        InterruptGroup { conns: Vec::new() }
    }

    /// Adds a connection. Those that have ended leave the group.
    pub fn register(&mut self, id: u64, is_external: bool, closed: &[u64])
        ensures
            final(self).conns@ == open_conns(old(self).conns@, closed@).push(
                (ConnItem { id, is_external }),
            ),
    {
        self.drop_closed(closed);
        self.conns.push(ConnItem { id, is_external });
    }

    fn drop_closed(&mut self, closed: &[u64])
        ensures
            final(self).conns@ == open_conns(old(self).conns@, closed@),
    {
        let mut keep: Vec<ConnItem> = Vec::new();
        let mut i: usize = 0;
        while i < self.conns.len()
            invariant
                i <= self.conns@.len(),
                self.conns@ == old(self).conns@,
                keep@ == open_conns(self.conns@.take(i as int), closed@),
            decreases self.conns@.len() - i,
        {
            reveal(Seq::filter);
            let item: ConnItem = self.conns[i];
            assert(self.conns@.take(i + 1).drop_last() =~= self.conns@.take(i as int));
            assert(self.conns@.take(i + 1).last() == item);
            if !is_closed(closed, item.id) {
                keep.push(item);
            }
            i += 1;
        }
        assert(self.conns@.take(i as int) =~= self.conns@);
        self.conns = keep;
    }

    /// Cuts connections off, those from outside only where they are meant too. Gives the numbers
    /// of the connections to signal.
    pub fn interrupt(&mut self, interrupt_external: bool, closed: &[u64]) -> (signals: Vec<u64>)
        ensures
            signals@ == open_conns(old(self).conns@, closed@).filter(
                |c: ConnItem| cut_off(c, interrupt_external),
            ).map_values(|c: ConnItem| c.id),
            final(self).conns@ == open_conns(old(self).conns@, closed@).filter(
                |c: ConnItem| !cut_off(c, interrupt_external),
            ),
    {
        self.drop_closed(closed);
        let ghost all = self.conns@;
        let ghost cut = |c: ConnItem| cut_off(c, interrupt_external);
        let ghost kept = |c: ConnItem| !cut_off(c, interrupt_external);
        let mut keep: Vec<ConnItem> = Vec::new();
        let mut signals: Vec<u64> = Vec::new();
        let mut i: usize = 0;
        while i < self.conns.len()
            invariant
                i <= self.conns@.len(),
                self.conns@ == all,
                cut == (|c: ConnItem| cut_off(c, interrupt_external)),
                kept == (|c: ConnItem| !cut_off(c, interrupt_external)),
                keep@ == all.take(i as int).filter(kept),
                signals@ == all.take(i as int).filter(cut).map_values(|c: ConnItem| c.id),
            decreases self.conns@.len() - i,
        {
            reveal(Seq::filter);
            let item: ConnItem = self.conns[i];
            let ghost before = all.take(i as int).filter(cut);
            assert(all.take(i + 1).drop_last() =~= all.take(i as int));
            assert(all.take(i + 1).last() == item);
            if !item.is_external || interrupt_external {
                signals.push(item.id);
                assert(before.push(item).map_values(|c: ConnItem| c.id) =~= before.map_values(
                    |c: ConnItem| c.id,
                ).push(item.id));
            } else {
                keep.push(item);
            }
            i += 1;
        }
        assert(all.take(i as int) =~= all);
        self.conns = keep;
        signals
    }
}

/// An interruption that reaches those from outside empties the group.
pub proof fn full_interrupt_empties(conns: Seq<ConnItem>)
    ensures
        conns.filter(|c: ConnItem| !cut_off(c, true)).len() == 0,
        conns.filter(|c: ConnItem| cut_off(c, true)) == conns,
    decreases conns.len(),
{
    reveal(Seq::filter);
    if conns.len() > 0 {
        full_interrupt_empties(conns.drop_last());
        assert(conns.drop_last().push(conns.last()) =~= conns);
    }
}

/// A connection from outside outlives an interruption that is not meant for it.
pub proof fn external_survives(conns: Seq<ConnItem>, closed: Seq<u64>, c: ConnItem)
    requires
        conns.contains(c),
        c.is_external,
        !closed.contains(c.id),
    ensures
        open_conns(conns, closed).filter(|x: ConnItem| !cut_off(x, false)).contains(c),
{
    broadcast use vstd::seq_lib::group_filter_ensures;

    let p = |x: ConnItem| !closed.contains(x.id);
    let q = |x: ConnItem| !cut_off(x, false);
    let i = choose|i: int| 0 <= i < conns.len() && conns[i] == c;
    assert(p(conns[i]));
    let open = open_conns(conns, closed);
    assert(open.contains(c));
    let j = choose|j: int| 0 <= j < open.len() && open[j] == c;
    assert(q(open[j]));
}

/// The way that data goes.
#[derive(Clone, Copy, Debug, PartialEq, Eq, Structural)]
pub enum Way {
    /// From the client to the server.
    Up,
    Down,
}

/// What to do next with a pair of connections.
#[derive(Clone, Copy, Debug, PartialEq, Eq, Structural)]
pub enum RelayStep {
    /// Write what was read to the other side.
    Write,
    /// Tell the other side that nothing more comes.
    Shutdown,
}

/// How far the passing on of data between two connections is.
#[derive(Clone, Copy, Debug, PartialEq, Eq, Structural)]
pub struct RelayState {
    pub up_bytes: u64,
    pub dn_bytes: u64,
    pub up_done: bool,
    pub dn_done: bool,
}

impl RelayState {
    /// Nothing was passed on.
    pub fn new() -> (state: RelayState)
        ensures
            state == (RelayState { up_bytes: 0, dn_bytes: 0, up_done: false, dn_done: false }),
    {
        RelayState { up_bytes: 0, dn_bytes: 0, up_done: false, dn_done: false }
    }

    /// Whether nothing more is passed on.
    pub open spec fn done(self) -> bool {
        self.up_done && self.dn_done
    }

    /// Whether nothing more is passed on.
    pub fn is_done(&self) -> (yes: bool)
        ensures
            yes == self.done(),
    {
        self.up_done && self.dn_done
    }

    /// How many bytes were passed on one way.
    pub open spec fn bytes(self, way: Way) -> u64 {
        match way {
            Way::Up => self.up_bytes,
            Way::Down => self.dn_bytes,
        }
    }

    /// Whether one way has ended.
    pub open spec fn ended(self, way: Way) -> bool {
        match way {
            Way::Up => self.up_done,
            Way::Down => self.dn_done,
        }
    }

    /// A read ended with so many bytes, none at the end or on a failure.
    pub fn on_read(&mut self, way: Way, n: usize) -> (step: RelayStep)
        ensures
            step == if n == 0 {
                RelayStep::Shutdown
            } else {
                RelayStep::Write
            },
            final(self).ended(way) == (old(self).ended(way) || n == 0),
            final(self).up_bytes == old(self).up_bytes,
            final(self).dn_bytes == old(self).dn_bytes,
            way is Up ==> final(self).dn_done == old(self).dn_done,
            way is Down ==> final(self).up_done == old(self).up_done,
    {
        if n > 0 {
            return RelayStep::Write;
        }
        match way {
            Way::Up => {
                self.up_done = true;
            },
            Way::Down => {
                self.dn_done = true;
            },
        }
        RelayStep::Shutdown
    }

    /// A write of so many bytes ended. Only what was written counts; a failure ends both ways.
    pub fn on_write(&mut self, way: Way, n: usize, written: bool)
        requires
            old(self).bytes(way) + n <= u64::MAX,
        ensures
            *final(self) == if !written {
                RelayState { up_done: true, dn_done: true, ..*old(self) }
            } else if way is Up {
                RelayState { up_bytes: (old(self).up_bytes + n) as u64, ..*old(self) }
            } else {
                RelayState { dn_bytes: (old(self).dn_bytes + n) as u64, ..*old(self) }
            },
    {
        if !written {
            self.up_done = true;
            self.dn_done = true;
            return;
        }
        match way {
            Way::Up => {
                self.up_bytes += n as u64;
            },
            Way::Down => {
                self.dn_bytes += n as u64;
            },
        }
    }
}

} // verus!
