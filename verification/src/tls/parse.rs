//! Reading length-prefixed structures.

use crate::wire::{be_value, be_value_small, read_u16, read_u24};
use vstd::prelude::*;

verus! {

/// The input ends before the structure does.
#[derive(Clone, Copy, Debug, PartialEq, Eq, Structural)]
pub struct Truncated;

/// The `len` bytes at `pos`, if there are that many.
pub open spec fn bytes_at(s: Seq<u8>, pos: nat, len: nat) -> Option<Seq<u8>> {
    if pos + len <= s.len() {
        Some(s.subrange(pos as int, (pos + len) as int))
    } else {
        None
    }
}

/// The number that the `len` bytes at `pos` spell.
pub open spec fn number_at(s: Seq<u8>, pos: nat, len: nat) -> Option<nat> {
    match bytes_at(s, pos, len) {
        Some(b) => Some(be_value(b)),
        None => None,
    }
}

/// Takes `len` bytes.
pub fn take<'a>(input: &'a [u8], pos: &mut usize, len: usize) -> (res: Result<&'a [u8], Truncated>)
    ensures
        match (res, bytes_at(input@, *old(pos) as nat, len as nat)) {
            (Ok(b), Some(c)) => b@ == c && *final(pos) == *old(pos) + len,
            (Err(_), None) => *final(pos) == *old(pos),
            _ => false,
        },
{
    let at: usize = *pos;
    if at > input.len() || len > input.len() - at {
        return Err(Truncated);
    }
    let end: usize = at + len;
    *pos = end;
    Ok(&input[at..end])
}

/// Takes one byte.
pub fn take_u8(input: &[u8], pos: &mut usize) -> (res: Result<u8, Truncated>)
    ensures
        match (res, number_at(input@, *old(pos) as nat, 1)) {
            (Ok(v), Some(w)) => v as nat == w && *final(pos) == *old(pos) + 1,
            (Err(_), None) => *final(pos) == *old(pos),
            _ => false,
        },
{
    match take(input, pos, 1) {
        Ok(b) => {
            proof {
                be_value_small(b@);
            }
            Ok(b[0])
        },
        Err(e) => Err(e),
    }
}

/// Takes a number of two bytes.
pub fn take_u16(input: &[u8], pos: &mut usize) -> (res: Result<u16, Truncated>)
    ensures
        match (res, number_at(input@, *old(pos) as nat, 2)) {
            (Ok(v), Some(w)) => v as nat == w && *final(pos) == *old(pos) + 2,
            (Err(_), None) => *final(pos) == *old(pos),
            _ => false,
        },
{
    match take(input, pos, 2) {
        Ok(b) => {
            assert(b@.subrange(0, 2) =~= b@);
            Ok(read_u16(b, 0))
        },
        Err(e) => Err(e),
    }
}

/// Takes a number of three bytes.
pub fn take_u24(input: &[u8], pos: &mut usize) -> (res: Result<usize, Truncated>)
    ensures
        match (res, number_at(input@, *old(pos) as nat, 3)) {
            (Ok(v), Some(w)) => v as nat == w && *final(pos) == *old(pos) + 3,
            (Err(_), None) => *final(pos) == *old(pos),
            _ => false,
        },
{
    match take(input, pos, 3) {
        Ok(b) => {
            assert(b@.subrange(0, 3) =~= b@);
            Ok(read_u24(b, 0) as usize)
        },
        Err(e) => Err(e),
    }
}

} // verus!
