//! Fixed-width integers in byte buffers, and the byte-buffer helpers that the
//! wire formats share.

use vstd::prelude::*;

verus! {

/// The `n` low-order bytes of `v`, most significant byte first.
pub open spec fn be_bytes(v: nat, n: nat) -> Seq<u8>
    decreases n,
{
    if n == 0 {
        Seq::empty()
    } else {
        be_bytes(v / 256, (n - 1) as nat).push((v % 256) as u8)
    }
}

/// The number that `s` spells, most significant byte first.
pub open spec fn be_value(s: Seq<u8>) -> nat
    decreases s.len(),
{
    if s.len() == 0 {
        0
    } else {
        be_value(s.drop_last()) * 256 + s.last() as nat
    }
}

/// The `n` low-order bytes of `v`, least significant byte first.
pub open spec fn le_bytes(v: nat, n: nat) -> Seq<u8>
    decreases n,
{
    if n == 0 {
        Seq::empty()
    } else {
        seq![(v % 256) as u8] + le_bytes(v / 256, (n - 1) as nat)
    }
}

/// The number that `s` spells, least significant byte first.
pub open spec fn le_value(s: Seq<u8>) -> nat
    decreases s.len(),
{
    if s.len() == 0 {
        0
    } else {
        s[0] as nat + 256 * le_value(s.skip(1))
    }
}

/// How many values fit in `n` bytes.
pub open spec fn byte_range(n: nat) -> nat
    decreases n,
{
    if n == 0 {
        1
    } else {
        256 * byte_range((n - 1) as nat)
    }
}

/// Encoding yields exactly `n` bytes.
pub proof fn be_bytes_len(v: nat, n: nat)
    ensures
        be_bytes(v, n).len() == n,
    decreases n,
{
    if n > 0 {
        be_bytes_len(v / 256, (n - 1) as nat);
    }
}

/// Decoding gives back every number that fits in the width it was encoded with.
pub proof fn be_round_trip(v: nat, n: nat)
    requires
        v < byte_range(n),
    ensures
        be_value(be_bytes(v, n)) == v,
    decreases n,
{
    if n > 0 {
        be_round_trip(v / 256, (n - 1) as nat);
        be_bytes_len(v / 256, (n - 1) as nat);
        assert(be_bytes(v, n).drop_last() =~= be_bytes(v / 256, (n - 1) as nat));
    }
}

/// Encoding a decoded byte string in its own width gives the string back.
pub proof fn be_decode_encode(s: Seq<u8>)
    ensures
        be_bytes(be_value(s), s.len()) == s,
        be_value(s) < byte_range(s.len()),
    decreases s.len(),
{
    if s.len() > 0 {
        be_decode_encode(s.drop_last());
        let v = be_value(s.drop_last());
        assert((v * 256 + s.last() as nat) / 256 == v) by (nonlinear_arith)
            requires
                0 <= s.last() < 256,
        ;
        assert((v * 256 + s.last() as nat) % 256 == s.last() as nat) by (nonlinear_arith)
            requires
                0 <= s.last() < 256,
        ;
        assert(be_bytes(be_value(s), s.len()) =~= s.drop_last().push(s.last()));
        assert(s.drop_last().push(s.last()) =~= s);
    }
}

/// The little-endian form decodes to the number it was made from.
pub proof fn le_round_trip(v: nat, n: nat)
    requires
        v < byte_range(n),
    ensures
        le_value(le_bytes(v, n)) == v,
        le_bytes(v, n).len() == n,
    decreases n,
{
    if n > 0 {
        le_round_trip(v / 256, (n - 1) as nat);
        assert(le_bytes(v, n).skip(1) =~= le_bytes(v / 256, (n - 1) as nat));
    }
}

pub proof fn be_bytes_small(v: nat)
    ensures
        be_bytes(v, 1) == seq![(v % 256) as u8],
        be_bytes(v, 2) == seq![(v / 256 % 256) as u8, (v % 256) as u8],
        be_bytes(v, 3) == seq![
            (v / 65536 % 256) as u8,
            (v / 256 % 256) as u8,
            (v % 256) as u8,
        ],
        be_bytes(v, 4) == seq![
            (v / 16777216 % 256) as u8,
            (v / 65536 % 256) as u8,
            (v / 256 % 256) as u8,
            (v % 256) as u8,
        ],
{
    reveal_with_fuel(be_bytes, 5);
    assert(v / 256 / 256 == v / 65536);
    assert(v / 256 / 256 / 256 == v / 16777216);
    assert(be_bytes(v, 1) =~= seq![(v % 256) as u8]);
    assert(be_bytes(v, 2) =~= seq![(v / 256 % 256) as u8, (v % 256) as u8]);
    assert(be_bytes(v, 3) =~= seq![
        (v / 65536 % 256) as u8,
        (v / 256 % 256) as u8,
        (v % 256) as u8,
    ]);
    assert(be_bytes(v, 4) =~= seq![
        (v / 16777216 % 256) as u8,
        (v / 65536 % 256) as u8,
        (v / 256 % 256) as u8,
        (v % 256) as u8,
    ]);
}

pub proof fn be_value_small(s: Seq<u8>)
    ensures
        s.len() == 1 ==> be_value(s) == s[0] as nat,
        s.len() == 2 ==> be_value(s) == s[0] as nat * 256 + s[1] as nat,
        s.len() == 3 ==> be_value(s) == s[0] as nat * 65536 + s[1] as nat * 256 + s[2] as nat,
        s.len() == 4 ==> be_value(s) == s[0] as nat * 16777216 + s[1] as nat * 65536 + s[2] as nat
            * 256 + s[3] as nat,
{
    reveal_with_fuel(be_value, 5);
}

/// Appends `v` as two bytes, high byte first.
pub fn put_u16(out: &mut Vec<u8>, v: u16)
    ensures
        final(out)@ == old(out)@ + be_bytes(v as nat, 2),
{
    proof {
        be_bytes_small(v as nat);
    }
    out.push((v / 256) as u8);
    out.push((v % 256) as u8);
    assert(out@ =~= old(out)@ + be_bytes(v as nat, 2));
}

/// Appends the low 24 bits of `v`, high byte first.
pub fn put_u24(out: &mut Vec<u8>, v: u32)
    ensures
        final(out)@ == old(out)@ + be_bytes(v as nat, 3),
{
    proof {
        be_bytes_small(v as nat);
    }
    out.push((v / 65536 % 256) as u8);
    out.push((v / 256 % 256) as u8);
    out.push((v % 256) as u8);
    assert(out@ =~= old(out)@ + be_bytes(v as nat, 3));
}

/// Appends the low 16 bits of a length, high byte first.
pub fn put_len16(out: &mut Vec<u8>, len: usize)
    ensures
        final(out)@ == old(out)@ + be_bytes(len as nat, 2),
{
    put_u16(out, (len % 65536) as u16);
    proof {
        be_bytes_mod(len as nat, 2);
        reveal_with_fuel(byte_range, 3);
    }
}

/// Appends the low 24 bits of a length, high byte first.
pub fn put_len24(out: &mut Vec<u8>, len: usize)
    ensures
        final(out)@ == old(out)@ + be_bytes(len as nat, 3),
{
    put_u24(out, (len % 16777216) as u32);
    proof {
        be_bytes_mod(len as nat, 3);
        reveal_with_fuel(byte_range, 4);
    }
}

/// Appends `v` as four bytes, high byte first.
pub fn put_u32(out: &mut Vec<u8>, v: u32)
    ensures
        final(out)@ == old(out)@ + be_bytes(v as nat, 4),
{
    proof {
        be_bytes_small(v as nat);
    }
    out.push((v / 16777216) as u8);
    out.push((v / 65536 % 256) as u8);
    out.push((v / 256 % 256) as u8);
    out.push((v % 256) as u8);
    assert(out@ =~= old(out)@ + be_bytes(v as nat, 4));
}

/// Appends `v` as eight bytes, high byte first.
pub fn put_u64(out: &mut Vec<u8>, v: u64)
    ensures
        final(out)@ == old(out)@ + be_bytes(v as nat, 8),
{
    let ghost start = out@;
    let high: u32 = (v / 4294967296) as u32;
    let low: u32 = (v % 4294967296) as u32;
    put_u32(out, high);
    put_u32(out, low);
    proof {
        be_bytes_concat(v as nat, 4, 4);
        assert(byte_range(4) == 4294967296) by {
            reveal_with_fuel(byte_range, 5);
        }
        assert(out@ =~= start + (be_bytes(high as nat, 4) + be_bytes(low as nat, 4)));
        be_bytes_mod(v as nat, 4);
    }
}

/// A wide number is its high part followed by its low part.
pub proof fn be_bytes_concat(v: nat, m: nat, n: nat)
    ensures
        be_bytes(v, m + n) == be_bytes(v / byte_range(n), m) + be_bytes(v, n),
        byte_range(n) > 0,
    decreases n,
{
    if n == 0 {
        assert(be_bytes(v, m) =~= be_bytes(v / 1, m) + be_bytes(v, 0));
    } else {
        let k = (n - 1) as nat;
        be_bytes_concat(v / 256, m, k);
        assert(v / 256 / byte_range(k) == v / (256 * byte_range(k))) by {
            vstd::arithmetic::div_mod::lemma_div_denominator(v as int, 256, byte_range(k) as int);
        }
        assert(be_bytes(v, m + n) =~= be_bytes(v / 256, (m + k) as nat).push((v % 256) as u8));
        assert(be_bytes(v, m + n) =~= be_bytes(v / byte_range(n), m) + be_bytes(v, n));
    }
}

/// Only the part of a number below the width matters to its encoding.
pub proof fn be_bytes_mod(v: nat, n: nat)
    ensures
        byte_range(n) > 0,
        be_bytes(v, n) == be_bytes(v % byte_range(n), n),
    decreases n,
{
    if n > 0 {
        let k = (n - 1) as nat;
        be_bytes_mod(v / 256, k);
        let r = byte_range(k);
        assert((v % (256 * r)) / 256 == (v / 256) % r) by {
            vstd::arithmetic::div_mod::lemma_breakdown(v as int, 256, r as int);
            let w = v / 256 % r;
            assert((256 * w + v % 256) / 256 == w) by (nonlinear_arith)
                requires
                    0 <= v % 256 < 256,
            ;
        }
        assert((v % (256 * r)) % 256 == v % 256) by {
            vstd::arithmetic::div_mod::lemma_mod_mod(v as int, 256, r as int);
        }
    }
}

/// Reads two bytes at `at`, high byte first.
pub fn read_u16(data: &[u8], at: usize) -> (v: u16)
    requires
        at + 2 <= data@.len(),
    ensures
        v as nat == be_value(data@.subrange(at as int, at + 2)),
{
    proof {
        be_value_small(data@.subrange(at as int, at + 2));
    }
    (data[at] as u16) * 256 + data[at + 1] as u16
}

/// Reads three bytes at `at`, high byte first.
pub fn read_u24(data: &[u8], at: usize) -> (v: u32)
    requires
        at + 3 <= data@.len(),
    ensures
        v as nat == be_value(data@.subrange(at as int, at + 3)),
        v < 16777216,
{
    proof {
        be_value_small(data@.subrange(at as int, at + 3));
    }
    (data[at] as u32) * 65536 + (data[at + 1] as u32) * 256 + data[at + 2] as u32
}

/// Reads four bytes at `at`, high byte first.
pub fn read_u32(data: &[u8], at: usize) -> (v: u32)
    requires
        at + 4 <= data@.len(),
    ensures
        v as nat == be_value(data@.subrange(at as int, at + 4)),
{
    proof {
        be_value_small(data@.subrange(at as int, at + 4));
    }
    (data[at] as u32) * 16777216 + (data[at + 1] as u32) * 65536 + (data[at + 2] as u32) * 256
        + data[at + 3] as u32
}

/// Reads eight bytes at `at`, high byte first.
pub fn read_u64(data: &[u8], at: usize) -> (v: u64)
    requires
        at + 8 <= data.len(),
    ensures
        v as nat == be_value(data@.subrange(at as int, at + 8)),
{
    let high: u32 = read_u32(data, at);
    let low: u32 = read_u32(data, at + 4);
    proof {
        be_value_concat(
            data@.subrange(at as int, at + 4),
            data@.subrange(at + 4, at + 8),
        );
        assert(byte_range(4) == 4294967296) by {
            reveal_with_fuel(byte_range, 5);
        }
        assert(data@.subrange(at as int, at + 4) + data@.subrange(at + 4, at + 8)
            =~= data@.subrange(at as int, at + 8));
    }
    (high as u64) * 4294967296 + low as u64
}

/// The value of a concatenation is the shifted value of its head plus that of its tail.
pub proof fn be_value_concat(a: Seq<u8>, b: Seq<u8>)
    ensures
        be_value(a + b) == be_value(a) * byte_range(b.len()) + be_value(b),
    decreases b.len(),
{
    if b.len() == 0 {
        assert(a + b =~= a);
        assert(byte_range(0) == 1);
        assert(be_value(a) * 1 == be_value(a));
    } else {
        be_value_concat(a, b.drop_last());
        assert((a + b).drop_last() =~= a + b.drop_last());
        assert((a + b).last() == b.last());
        let r = byte_range((b.len() - 1) as nat);
        assert(byte_range(b.len()) == 256 * r);
        assert((be_value(a) * r + be_value(b.drop_last())) * 256 == be_value(a) * (256 * r)
            + be_value(b.drop_last()) * 256) by (nonlinear_arith);
        assert(be_value(a) * byte_range(b.len()) == be_value(a) * (256 * r));
        assert(be_value(a + b) == be_value(a + b.drop_last()) * 256 + b.last() as nat);
    }
}

/// Appends `src` to `out`.
pub fn put_bytes(out: &mut Vec<u8>, src: &[u8])
    ensures
        final(out)@ == old(out)@ + src@,
{
    out.extend_from_slice(src);
    assert(out@ =~= old(out)@ + src@);
}

/// An owned copy of `src[from..to]`.
pub fn copy_range(src: &[u8], from: usize, to: usize) -> (out: Vec<u8>)
    requires
        from <= to <= src@.len(),
    ensures
        out@ == src@.subrange(from as int, to as int),
{
    let mut out: Vec<u8> = Vec::new();
    put_bytes(&mut out, &src[from..to]);
    assert(out@ =~= src@.subrange(from as int, to as int));
    out
}

/// Whether the two byte strings are the same.
pub fn bytes_eq(a: &[u8], b: &[u8]) -> (same: bool)
    ensures
        same == (a@ == b@),
{
    if a.len() != b.len() {
        return false;
    }
    let mut i: usize = 0;
    while i < a.len()
        invariant
            i <= a@.len(),
            a@.len() == b@.len(),
            forall|j: int| 0 <= j < i ==> a@[j] == b@[j],
        decreases a@.len() - i,
    {
        if a[i] != b[i] {
            return false;
        }
        i += 1;
    }
    assert(a@ =~= b@);
    true
}

/// Every 64-bit number fits in twelve bytes.
pub proof fn byte_range_grows(v: nat)
    requires
        v <= u64::MAX,
    ensures
        v < byte_range(12),
{
    reveal_with_fuel(byte_range, 13);
}

/// The bytes as an array.
pub fn array32(bytes: &[u8]) -> (a: [u8; 32])
    requires
        bytes@.len() == 32,
    ensures
        a@ == bytes@,
{
    let mut a: [u8; 32] = [0u8; 32];
    let mut i: usize = 0;
    while i < 32
        invariant
            i <= 32,
            bytes@.len() == 32,
            forall|j: int| 0 <= j < i ==> a@[j] == bytes@[j],
        decreases 32 - i,
    {
        a[i] = bytes[i];
        i += 1;
    }
    assert(a@ =~= bytes@);
    a
}

/// Reads sixteen bytes at `at`, high byte first.
pub fn read_u128(data: &[u8], at: usize) -> (v: u128)
    requires
        at + 16 <= data.len(),
    ensures
        v as nat == be_value(data@.subrange(at as int, at + 16)),
{
    let high: u64 = read_u64(data, at);
    let low: u64 = read_u64(data, at + 8);
    proof {
        be_value_concat(data@.subrange(at as int, at + 8), data@.subrange(at + 8, at + 16));
        assert(byte_range(8) == 0x1_0000_0000_0000_0000) by {
            reveal_with_fuel(byte_range, 9);
        }
        assert(data@.subrange(at as int, at + 8) + data@.subrange(at + 8, at + 16)
            =~= data@.subrange(at as int, at + 16));
    }
    (high as u128) * 0x1_0000_0000_0000_0000 + low as u128
}

/// Appends the `n` low-order bytes of `v`, low byte first.
pub fn put_le(out: &mut Vec<u8>, v: u64, n: usize)
    ensures
        final(out)@ == old(out)@ + le_bytes(v as nat, n as nat),
    decreases n,
{
    if n > 0 {
        out.push((v % 256) as u8);
        put_le(out, v / 256, n - 1);
    }
    assert(out@ =~= old(out)@ + le_bytes(v as nat, n as nat));
}

/// Reads `n` bytes at `at`, low byte first.
pub fn read_le(data: &[u8], at: usize, n: usize) -> (v: u64)
    requires
        at + n <= data.len(),
        n <= 8,
    ensures
        v as nat == le_value(data@.subrange(at as int, at + n)),
        v < byte_range(n as nat),
    decreases n,
{
    if n == 0 {
        return 0;
    }
    let rest: u64 = read_le(data, at + 1, n - 1);
    proof {
        assert(data@.subrange(at as int, at + n).skip(1) =~= data@.subrange(at + 1, at + n));
        reveal_with_fuel(byte_range, 9);
    }
    data[at] as u64 + 256 * rest
}

} // verus!
