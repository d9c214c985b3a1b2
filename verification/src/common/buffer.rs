//! Bytes that were received and are not handed out yet.

use crate::wire::{copy_range, put_bytes};
use vstd::prelude::*;

verus! {

/// Bytes in the order in which they came.
pub struct ReadBuffer {
    pub bytes: Vec<u8>,
}

/// The smaller of two numbers.
pub open spec fn at_most(n: nat, limit: nat) -> int {
    if n < limit {
        n as int
    } else {
        limit as int
    }
}

impl ReadBuffer {
    pub fn new(bytes: Vec<u8>) -> (b: ReadBuffer)
        ensures
            b.bytes == bytes,
    {
        ReadBuffer { bytes }
    }

    pub fn is_empty(&self) -> (yes: bool)
        ensures
            yes == (self.bytes@.len() == 0),
    {
        self.bytes.len() == 0
    }

    /// Adds bytes at the end.
    pub fn add(&mut self, more: &[u8])
        ensures
            final(self).bytes@ == old(self).bytes@ + more@,
    {
        put_bytes(&mut self.bytes, more);
    }

    /// Hands out bytes, at most `n`. The rest stays.
    pub fn take(&mut self, n: usize) -> (out: Vec<u8>)
        ensures
            out@ == old(self).bytes@.take(at_most(n as nat, old(self).bytes@.len())),
            final(self).bytes@ == old(self).bytes@.skip(at_most(n as nat, old(self).bytes@.len())),
    {
        let m: usize = if n < self.bytes.len() {
            n
        } else {
            self.bytes.len()
        };
        let out: Vec<u8> = copy_range(&self.bytes, 0, m);
        let rest: Vec<u8> = copy_range(&self.bytes, m, self.bytes.len());
        assert(out@ =~= self.bytes@.take(m as int));
        assert(rest@ =~= self.bytes@.skip(m as int));
        self.bytes = rest;
        out
    }
}

/// Taking twice gives what taking once would have given: no byte is lost or doubled.
pub proof fn takes_add_up(bytes: Seq<u8>, a: nat, b: nat)
    ensures
        ({
            let i = at_most(a, bytes.len());
            let rest = bytes.skip(i);
            let j = at_most(b, rest.len());
            bytes.take(i) + rest.take(j) == bytes.take(at_most(a + b, bytes.len())) && rest.skip(j)
                == bytes.skip(at_most(a + b, bytes.len()))
        }),
{
    let i = at_most(a, bytes.len());
    let rest = bytes.skip(i);
    let j = at_most(b, rest.len());
    assert(bytes.take(i) + rest.take(j) =~= bytes.take(at_most(a + b, bytes.len())));
    assert(rest.skip(j) =~= bytes.skip(at_most(a + b, bytes.len())));
}

} // verus!
