//! QUIC variable-length integers (RFC 9000, section 16).

use crate::wire::{
    be_bytes, be_bytes_len, be_bytes_small, be_decode_encode, be_round_trip, be_value,
    be_value_concat, be_value_small, byte_range, put_u16, put_u32, put_u64, read_u16, read_u32,
    read_u64,
};
use vstd::prelude::*;

verus! {

/// Why a byte string does not start with a whole integer.
#[derive(Clone, Copy, Debug, PartialEq, Eq, Structural)]
pub enum VarintError {
    Empty,
    Truncated2,
    Truncated4,
    Truncated8,
}

/// The largest number that the encoding can carry, plus one.
pub open spec fn varint_limit() -> nat {
    0x4000_0000_0000_0000
}

/// The width in bytes that the two top bits of `first` announce.
pub open spec fn varint_width(first: u8) -> nat {
    if first < 64 {
        1
    } else if first < 128 {
        2
    } else if first < 192 {
        4
    } else {
        8
    }
}

/// How many values a field of `n` bytes carries once its two top bits are taken.
pub open spec fn varint_range(n: nat) -> nat {
    if n == 1 {
        64
    } else if n == 2 {
        16384
    } else if n == 4 {
        1_073_741_824
    } else {
        varint_limit()
    }
}

/// The shortest encoding of `v`.
pub open spec fn varint_bytes(v: u64) -> Seq<u8> {
    if v <= 63 {
        be_bytes(v as nat, 1)
    } else if v <= 16383 {
        be_bytes((v + 0x4000) as nat, 2)
    } else if v <= 1_073_741_823 {
        be_bytes((v + 0x8000_0000) as nat, 4)
    } else {
        be_bytes((v % 0x4000_0000_0000_0000 + 0xc000_0000_0000_0000) as nat, 8)
    }
}

/// The integer at the start of `s` and its width, or why there is none.
pub open spec fn varint_at(s: Seq<u8>) -> Result<(nat, nat), VarintError> {
    if s.len() == 0 {
        Err(VarintError::Empty)
    } else {
        let n = varint_width(s[0]);
        if s.len() >= n {
            Ok((be_value(s.take(n as int)) % varint_range(n), n))
        } else if n == 2 {
            Err(VarintError::Truncated2)
        } else if n == 4 {
            Err(VarintError::Truncated4)
        } else {
            Err(VarintError::Truncated8)
        }
    }
}

proof fn first_byte(s: Seq<u8>)
    requires
        s.len() == 2 || s.len() == 4 || s.len() == 8,
    ensures
        s.len() == 2 ==> s[0] as nat == be_value(s) / 256,
        s.len() == 4 ==> s[0] as nat == be_value(s) / 0x100_0000,
        s.len() == 8 ==> s[0] as nat == be_value(s) / 0x100_0000_0000_0000,
{
    let head = s.take(1);
    let tail = s.skip(1);
    assert(s =~= head + tail);
    be_value_concat(head, tail);
    be_value_small(head);
    be_decode_encode(tail);
    reveal_with_fuel(byte_range, 8);
    assert(byte_range(1) == 0x100);
    assert(byte_range(3) == 0x100_0000);
    assert(byte_range(7) == 0x100_0000_0000_0000);
    assert(s[0] == head[0]);
    if s.len() == 8 {
        assert(tail.len() == 7);
        assert(be_value(s) == s[0] as nat * 0x100_0000_0000_0000 + be_value(tail));
        assert(be_value(tail) < 0x100_0000_0000_0000);
    }
}

/// What is written is read back, whatever follows it, for every number that the
/// encoding can carry.
pub proof fn varint_round_trip(v: u64, rest: Seq<u8>)
    requires
        v < varint_limit(),
    ensures
        varint_at(varint_bytes(v) + rest) == Ok::<(nat, nat), VarintError>(
            (v as nat, varint_bytes(v).len()),
        ),
        1 <= varint_bytes(v).len() <= 8,
{
    reveal_with_fuel(byte_range, 9);
    let b = varint_bytes(v);
    let s = b + rest;
    assert(byte_range(2) == 0x1_0000);
    assert(byte_range(4) == 0x1_0000_0000);
    assert(byte_range(8) == 0x1_0000_0000_0000_0000);
    if v <= 63 {
        be_bytes_small(v as nat);
        be_value_small(b);
        assert(s.take(1) =~= b);
        assert(s[0] == b[0]);
        assert(b[0] as nat == v as nat);
        assert(varint_width(s[0]) == 1);
        assert(be_value(b) == v as nat);
        assert(be_value(b) % 64 == v as nat);
    } else if v <= 16383 {
        let w = (v + 0x4000) as nat;
        be_bytes_len(w, 2);
        be_round_trip(w, 2);
        assert(s.take(2) =~= b);
        first_byte(b);
        assert(s[0] == b[0]);
        assert(varint_width(s[0]) == 2);
        assert(w % 16384 == v as nat);
    } else if v <= 1_073_741_823 {
        let w = (v + 0x8000_0000) as nat;
        be_bytes_len(w, 4);
        be_round_trip(w, 4);
        assert(s.take(4) =~= b);
        first_byte(b);
        assert(s[0] == b[0]);
        assert(varint_width(s[0]) == 4);
        assert(w % 1_073_741_824 == v as nat);
    } else {
        let w = (v % 0x4000_0000_0000_0000 + 0xc000_0000_0000_0000) as nat;
        be_bytes_len(w, 8);
        be_round_trip(w, 8);
        assert(s.take(8) =~= b);
        first_byte(b);
        assert(s[0] == b[0]);
        assert(varint_width(s[0]) == 8);
        assert(be_value(b) == w);
        assert(w == v as nat + 3 * 0x4000_0000_0000_0000);
        assert(w % 0x4000_0000_0000_0000 == v as nat);
    }
}

/// Appends the shortest encoding of `i`. The encoding has room for 62 bits; the two
/// top bits of a larger number are lost.
pub fn write_varint(buf: &mut Vec<u8>, i: u64)
    ensures
        final(buf)@ == old(buf)@ + varint_bytes(i),
{
    if i <= 63 {
        buf.push(i as u8);
        proof {
            be_bytes_small(i as nat);
        }
        assert(buf@ =~= old(buf)@ + varint_bytes(i));
    } else if i <= 16383 {
        put_u16(buf, i as u16 + 0x4000);
    } else if i <= 1_073_741_823 {
        put_u32(buf, i as u32 + 0x8000_0000);
    } else {
        put_u64(buf, i % 0x4000_0000_0000_0000 + 0xc000_0000_0000_0000);
    }
}

/// Reads the integer at the start of `buf`, with its width.
pub fn decode_varint_slice(buf: &[u8]) -> (res: Result<(u64, usize), VarintError>)
    ensures
        match (res, varint_at(buf@)) {
            (Ok((v, n)), Ok((w, m))) => v as nat == w && n as nat == m,
            (Err(e), Err(f)) => e == f,
            _ => false,
        },
        res matches Ok((v, n)) ==> v < varint_limit() && 1 <= n <= 8 && n <= buf@.len(),
{
    if buf.len() == 0 {
        return Err(VarintError::Empty);
    }
    let first: u8 = buf[0];
    if first < 64 {
        proof {
            be_value_small(buf@.take(1));
            assert(be_value(buf@.take(1)) == first as nat);
            assert(first as nat % 64 == first as nat);
        }
        return Ok((first as u64, 1));
    }
    if first < 128 {
        if buf.len() < 2 {
            return Err(VarintError::Truncated2);
        }
        assert(buf@.subrange(0, 2) =~= buf@.take(2));
        return Ok((read_u16(buf, 0) as u64 % 16384, 2));
    }
    if first < 192 {
        if buf.len() < 4 {
            return Err(VarintError::Truncated4);
        }
        assert(buf@.subrange(0, 4) =~= buf@.take(4));
        return Ok((read_u32(buf, 0) as u64 % 1_073_741_824, 4));
    }
    if buf.len() < 8 {
        return Err(VarintError::Truncated8);
    }
    assert(buf@.subrange(0, 8) =~= buf@.take(8));
    Ok((read_u64(buf, 0) % 0x4000_0000_0000_0000, 8))
}

/// How many bytes the integer takes whose first byte is `first`.
pub fn varint_len(first: u8) -> (n: usize)
    ensures
        n as nat == varint_width(first),
{
    if first < 64 {
        1
    } else if first < 128 {
        2
    } else if first < 192 {
        4
    } else {
        8
    }
}

} // verus!
