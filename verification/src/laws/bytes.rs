//! Numbers and words as bytes.

use crate::wire::{
    be_bytes, be_bytes_concat, be_bytes_len, be_bytes_small, be_value, be_value_concat,
    be_value_small, byte_range, le_bytes, le_value,
};
use vstd::prelude::*;
use vstd::utf8::{encode_utf8, is_ascii_chars, is_ascii_chars_encode_utf8};

verus! {

/// The characters of a text as bytes, one each.
pub open spec fn ascii(s: Seq<char>) -> Seq<u8> {
    Seq::new(s.len(), |i: int| s[i] as u8)
}

/// A text of ASCII is sent as its characters.
pub proof fn ascii_is_sent_as_it_is(s: Seq<char>)
    requires
        is_ascii_chars(s),
    ensures
        encode_utf8(s) == ascii(s),
{
    is_ascii_chars_encode_utf8(s);
    assert(encode_utf8(s) =~= ascii(s));
}

/// Two bytes, the high one first.
pub open spec fn two(n: nat) -> Seq<u8> {
    seq![(n / 256 % 256) as u8, (n % 256) as u8]
}

/// Four bytes, the high ones first.
pub open spec fn four(n: nat) -> Seq<u8> {
    seq![
        (n / 0x100_0000 % 256) as u8,
        (n / 0x1_0000 % 256) as u8,
        (n / 256 % 256) as u8,
        (n % 256) as u8,
    ]
}

/// Numbers of two and four bytes in network order.
pub proof fn network_order(n: nat)
    ensures
        be_bytes(n, 1) == seq![(n % 256) as u8],
        be_bytes(n, 2) == two(n),
        be_bytes(n, 3) == seq![(n / 0x1_0000 % 256) as u8] + two(n),
        be_bytes(n, 4) == four(n),
{
    be_bytes_small(n);
    assert(be_bytes(n, 3) =~= seq![(n / 0x1_0000 % 256) as u8] + two(n));
}

/// A number of eight bytes in network order: its high half before its low one.
pub proof fn network_order_of_eight(n: nat)
    ensures
        be_bytes(n, 8) == four(n / 0x1_0000_0000) + four(n),
        be_bytes(n, 8).len() == 8,
{
    reveal_with_fuel(byte_range, 5);
    assert(byte_range(4) == 0x1_0000_0000);
    be_bytes_concat(n, 4, 4);
    network_order(n);
    network_order(n / 0x1_0000_0000);
    be_bytes_len(n, 8);
}

/// What bytes in network order are worth.
pub proof fn network_value(s: Seq<u8>)
    ensures
        s.len() == 1 ==> be_value(s) == s[0],
        s.len() == 2 ==> be_value(s) == s[0] * 256 + s[1],
        s.len() == 3 ==> be_value(s) == s[0] * 0x1_0000 + s[1] * 256 + s[2],
        s.len() == 4 ==> be_value(s) == s[0] * 0x100_0000 + s[1] * 0x1_0000 + s[2] * 256 + s[3],
        s.len() == 8 ==> be_value(s) == be_value(s.take(4)) * 0x1_0000_0000 + be_value(s.skip(4)),
        s.len() == 16 ==> be_value(s) == be_value(s.take(8)) * 0x1_0000_0000_0000_0000 + be_value(
            s.skip(8),
        ),
{
    be_value_small(s);
    reveal_with_fuel(byte_range, 9);
    assert(byte_range(4) == 0x1_0000_0000);
    assert(byte_range(8) == 0x1_0000_0000_0000_0000);
    if s.len() == 8 {
        assert(s =~= s.take(4) + s.skip(4));
        be_value_concat(s.take(4), s.skip(4));
    }
    if s.len() == 16 {
        assert(s =~= s.take(8) + s.skip(8));
        be_value_concat(s.take(8), s.skip(8));
    }
}

/// Numbers with the low byte first.
pub proof fn low_byte_first(n: nat, s: Seq<u8>)
    ensures
        le_bytes(n, 2) == seq![(n % 256) as u8, (n / 256 % 256) as u8],
        le_bytes(n, 4) == seq![
            (n % 256) as u8,
            (n / 256 % 256) as u8,
            (n / 0x1_0000 % 256) as u8,
            (n / 0x100_0000 % 256) as u8,
        ],
        s.len() == 2 ==> le_value(s) == s[0] + s[1] * 256,
        s.len() == 4 ==> le_value(s) == s[0] + s[1] * 256 + s[2] * 0x1_0000 + s[3] * 0x100_0000,
{
    reveal_with_fuel(le_bytes, 5);
    reveal_with_fuel(le_value, 5);
    assert(n / 256 / 256 == n / 0x1_0000);
    assert(n / 256 / 256 / 256 == n / 0x100_0000);
    assert(le_bytes(n, 2) =~= seq![(n % 256) as u8, (n / 256 % 256) as u8]);
    assert(le_bytes(n, 4) =~= seq![
        (n % 256) as u8,
        (n / 256 % 256) as u8,
        (n / 0x1_0000 % 256) as u8,
        (n / 0x100_0000 % 256) as u8,
    ]);
}

/// The `i`-th byte of a number with the low byte first counts its 256^i.
pub proof fn low_byte_first_at(n: nat, width: nat, i: nat)
    requires
        i < width,
    ensures
        le_bytes(n, width).len() == width,
        byte_range(i) > 0,
        le_bytes(n, width)[i as int] == n / byte_range(i) % 256,
    decreases width,
{
    let rest = le_bytes(n / 256, (width - 1) as nat);
    if i > 0 {
        let k = (i - 1) as nat;
        low_byte_first_at(n / 256, (width - 1) as nat, k);
        assert(n / 256 / byte_range(k) == n / (256 * byte_range(k))) by {
            vstd::arithmetic::div_mod::lemma_div_denominator(n as int, 256, byte_range(k) as int);
        }
        assert(le_bytes(n, width)[i as int] == rest[k as int]);
    } else {
        le_len(n, width);
        assert(byte_range(0) == 1);
        assert(n / 1 == n);
    }
}

proof fn le_len(n: nat, width: nat)
    ensures
        le_bytes(n, width).len() == width,
    decreases width,
{
    if width > 0 {
        le_len(n / 256, (width - 1) as nat);
    }
}

} // verus!
