//! The compression of header lines: numbers, strings and the code of their letters.

use crate::huffman::{
    bits_value, data_bits, decode_bits, huffman_bytes, huffman_first, huffman_symbols, is_code,
    EOS,
};
use crate::qpack::{
    field_at, fields_from, int_tail, literal_block, literal_bytes, qpack_int, static_entry,
    string_at, Field,
};
use crate::text::lossy_text;
use vstd::arithmetic::power2::{lemma2_to64, pow2};
use vstd::prelude::*;
use vstd::utf8::encode_utf8;

verus! {

/// A number stands in the low bits of a byte, or goes on behind them, seven bits in each byte and the
/// low ones first, as long as the high bit is set.
pub proof fn numbers_in_prefixes(s: Seq<u8>, prefix: nat, v: nat, n: nat)
    requires
        s.len() > 0,
        prefix == 3 || prefix == 4 || prefix == 6 || prefix == 7,
    ensures
        ({
            let m: int = if prefix == 3 {
                8
            } else if prefix == 4 {
                16
            } else if prefix == 6 {
                64
            } else {
                128
            };
            &&& s[0] as int % m < m - 1 ==> qpack_int(s, prefix) == Some(((s[0] as int % m) as nat, 1nat))
            &&& s[0] as int % m == m - 1 && int_tail(s.skip(1)) == Some((v, n)) ==> qpack_int(s, prefix)
                == Some(((m - 1 + v) as nat, n + 1))
            &&& s[0] as int % m == m - 1 && int_tail(s.skip(1)) is None ==> qpack_int(s, prefix) is None
        }),
        s[0] < 128 ==> int_tail(s) == Some((s[0] as nat, 1nat)),
        s[0] >= 128 && int_tail(s.skip(1)) == Some((v, n)) ==> int_tail(s) == Some(
            (((s[0] - 128) + 128 * v) as nat, n + 1),
        ),
        s[0] >= 128 && int_tail(s.skip(1)) is None ==> int_tail(s) is None,
        int_tail(Seq::empty()) is None,
{
    reveal(qpack_int);
    lemma2_to64();
    assert(pow2(3) == 8 && pow2(4) == 16 && pow2(6) == 64 && pow2(7) == 128);
}

/// A string stands behind its length; the bit before the length says whether its letters are coded.
pub proof fn strings_are_read(s: Seq<u8>, i: int, len: nat, n: nat)
    requires
        0 <= i < s.len(),
    ensures
        qpack_int(s.skip(i), 7) == Some((len, n)) && i + n + len <= s.len() ==> string_at(s, i, 7)
            == Some(
            (
                if s[i] >= 128 {
                    lossy_text(huffman_bytes(s.subrange(i + n, i + n + len)))
                } else {
                    lossy_text(s.subrange(i + n, i + n + len))
                },
                i + n + len,
            ),
        ),
        qpack_int(s.skip(i), 3) == Some((len, n)) && i + n + len <= s.len() ==> string_at(s, i, 3)
            == Some(
            (
                if s[i] / 8 % 2 == 1 {
                    lossy_text(huffman_bytes(s.subrange(i + n, i + n + len)))
                } else {
                    lossy_text(s.subrange(i + n, i + n + len))
                },
                i + n + len,
            ),
        ),
        qpack_int(s.skip(i), 7) == Some((len, n)) && i + n + len > s.len() ==> string_at(
            s,
            i,
            7,
        ) is None,
        qpack_int(s.skip(i), 7) is None ==> string_at(s, i, 7) is None,
{
    reveal(string_at);
    lemma2_to64();
    assert(pow2(3) == 8 && pow2(7) == 128);
}

/// A line that refers to the table is that entry, or is passed over where the table has none; one
/// that takes its name from the table has it, or no name where the table has none.
pub proof fn lines_of_the_table(s: Seq<u8>, i: int, idx: nat, n: nat)
    requires
        0 <= i < s.len(),
    ensures
        s[i] >= 128 && qpack_int(s.skip(i), 6) is None ==> field_at(s, i) is Stop,
        s[i] >= 128 && qpack_int(s.skip(i), 6) == Some((idx, n)) ==> field_at(s, i) == (
        match static_entry(idx) {
            Some((name, value)) => Field::Header(name, value, i + n),
            None => Field::Skip(i + n),
        }),
        64 <= s[i] && s[i] < 128 && qpack_int(s.skip(i), 4) is None ==> field_at(s, i) is Stop,
        64 <= s[i] && s[i] < 128 && qpack_int(s.skip(i), 4) == Some((idx, n)) ==> (match string_at(
            s,
            i + n,
            7,
        ) {
            None => field_at(s, i) is Stop,
            Some((value, next)) => field_at(s, i) == Field::Header(
                match static_entry(idx) {
                    Some((name, _)) => name,
                    None => Seq::empty(),
                },
                value,
                next,
            ),
        }),
{
}

/// Lines are read one after another, and those that are passed over leave nothing.
pub proof fn lines_follow_each_other(s: Seq<u8>, i: int, name: Seq<char>, value: Seq<char>, next: int)
    requires
        0 <= i < s.len(),
        i < next <= s.len(),
    ensures
        field_at(s, i) == Field::Header(name, value, next) ==> fields_from(s, i) == seq![
            (name, value),
        ] + fields_from(s, next),
        field_at(s, i) == Field::Skip(next) ==> fields_from(s, i) == fields_from(s, next),
        field_at(s, i) is Stop ==> fields_from(s, i).len() == 0,
        fields_from(s, s.len() as int).len() == 0,
{
}

/// A block of lines starts with two zeros, and has the lines in their order.
pub proof fn blocks_are_written(headers: Seq<(Seq<char>, Seq<char>)>, h: (Seq<char>, Seq<char>))
    ensures
        literal_block(Seq::empty()) == seq![0u8, 0u8],
        literal_block(seq![h] + headers) == seq![0u8, 0u8] + literal_bytes(
            encode_utf8(h.0),
            encode_utf8(h.1),
        ) + literal_block(headers).skip(2),
{
    let all = seq![h] + headers;
    assert(all[0] == h);
    assert(all.skip(1) =~= headers);
    assert(literal_block(headers).skip(2) =~= crate::qpack::literal_lines(headers));
    assert(literal_block(Seq::empty()) =~= seq![0u8, 0u8]);
    assert(literal_block(all) =~= seq![0u8, 0u8] + literal_bytes(encode_utf8(h.0), encode_utf8(h.1))
        + literal_block(headers).skip(2));
}

/// The bits of a byte are worth the byte, the first of them the most, and the bits of bytes follow
/// each other.
pub proof fn bits_of_bytes(b: u8, bits: Seq<bool>, bit: bool, a: Seq<u8>, c: Seq<u8>)
    ensures
        bits_value(data_bits(seq![b])) == b,
        data_bits(seq![b]).len() == 8,
        bits_value(Seq::empty()) == 0,
        bits_value(bits.push(bit)) == 2 * bits_value(bits) + if bit {
            1int
        } else {
            0int
        },
        data_bits(a + c) == data_bits(a) + data_bits(c),
{
    assert(bits.push(bit).drop_last() =~= bits);
    bits_of_one(b);
    bits_add_up(a, c);
}

proof fn bits_add_up(a: Seq<u8>, c: Seq<u8>)
    ensures
        data_bits(a + c) == data_bits(a) + data_bits(c),
{
    let x = data_bits(a + c);
    let y = data_bits(a) + data_bits(c);
    let n = 8 * a.len() as int;
    assert(x.len() == y.len());
    assert forall|i: int| 0 <= i < x.len() implies x[i] == y[i] by {
        if i < n {
            assert(0 <= i / 8 < a.len());
            assert((a + c)[i / 8] == a[i / 8]);
        } else {
            assert((i - n) / 8 == i / 8 - a.len());
            assert((i - n) % 8 == i % 8);
            assert((a + c)[i / 8] == c[(i - n) / 8]);
        }
    }
    assert(x =~= y);
}

proof fn next_bit(bits: Seq<bool>, v: nat)
    requires
        bits.len() > 0,
        bits.last() == (v % 2 == 1),
        bits_value(bits.drop_last()) == v / 2,
    ensures
        bits_value(bits) == v,
{
}

proof fn bits_of_one(b: u8)
    ensures
        bits_value(data_bits(seq![b])) == b,
        data_bits(seq![b]).len() == 8,
{
    let d = data_bits(seq![b]);
    let v = b as nat;
    assert(d.len() == 8);
    assert(d[0] == (v / 128 % 2 == 1));
    assert(d[1] == (v / 64 % 2 == 1));
    assert(d[2] == (v / 32 % 2 == 1));
    assert(d[3] == (v / 16 % 2 == 1));
    assert(d[4] == (v / 8 % 2 == 1));
    assert(d[5] == (v / 4 % 2 == 1));
    assert(d[6] == (v / 2 % 2 == 1));
    assert(d[7] == (v % 2 == 1));
    let d7 = d.drop_last();
    let d6 = d7.drop_last();
    let d5 = d6.drop_last();
    let d4 = d5.drop_last();
    let d3 = d4.drop_last();
    let d2 = d3.drop_last();
    let d1 = d2.drop_last();
    let d0 = d1.drop_last();
    assert(d0.len() == 0);
    assert(v / 128 / 2 == 0);
    next_bit(d1, v / 128);
    assert(v / 64 / 2 == v / 128);
    next_bit(d2, v / 64);
    assert(v / 32 / 2 == v / 64);
    next_bit(d3, v / 32);
    assert(v / 16 / 2 == v / 32);
    next_bit(d4, v / 16);
    assert(v / 8 / 2 == v / 16);
    next_bit(d5, v / 8);
    assert(v / 4 / 2 == v / 8);
    next_bit(d6, v / 4);
    assert(v / 2 / 2 == v / 4);
    next_bit(d7, v / 2);
    next_bit(d, v);
}

/// The letters with short codes, by the length of the code.
pub proof fn letters_with_short_codes()
    ensures
        huffman_symbols(5) == seq![48u16, 49, 50, 97, 99, 101, 105, 111, 115, 116],
        huffman_symbols(6) == seq![
            32u16,
            37,
            45,
            46,
            47,
            51,
            52,
            53,
            54,
            55,
            56,
            57,
            61,
            65,
            95,
            98,
            100,
            102,
            103,
            104,
            108,
            109,
            110,
            112,
            114,
            117,
        ],
        huffman_symbols(7).len() == 32,
        huffman_symbols(7)[0] == ':' as u32,
        forall|i: int| 1 <= i < 23 ==> #[trigger] huffman_symbols(7)[i] == 'A' as u32 + i,
        huffman_symbols(7).skip(23) == seq![89u16, 106, 107, 113, 118, 119, 120, 121, 122],
        huffman_symbols(8) == seq![38u16, 42, 44, 59, 88, 90],
        huffman_symbols(10) == seq![33u16, 34, 40, 41, 63],
        huffman_symbols(11) == seq![39u16, 43, 124],
        huffman_symbols(12) == seq![35u16, 62],
        huffman_symbols(13) == seq![0u16, 36, 64, 91, 93, 126],
        huffman_symbols(14) == seq![94u16, 125],
        huffman_symbols(15) == seq![60u16, 96, 123],
        huffman_symbols(30) == seq![10u16, 13, 22, 256],
{
    reveal(huffman_symbols);
}

/// The bytes with long codes, by the length of the code.
pub proof fn bytes_with_long_codes()
    ensures
        huffman_symbols(9).len() == 0,
        huffman_symbols(16).len() == 0,
        huffman_symbols(17).len() == 0,
        huffman_symbols(18).len() == 0,
        huffman_symbols(29).len() == 0,
        huffman_symbols(19) == seq![92u16, 195, 208],
        huffman_symbols(20) == seq![128u16, 130, 131, 162, 184, 194, 224, 226],
        huffman_symbols(21) == seq![
            153u16,
            161,
            167,
            172,
            176,
            177,
            179,
            209,
            216,
            217,
            227,
            229,
            230,
        ],
        huffman_symbols(22) == seq![
            129u16,
            132,
            133,
            134,
            136,
            146,
            154,
            156,
            160,
            163,
            164,
            169,
            170,
            173,
            178,
            181,
            185,
            186,
            187,
            189,
            190,
            196,
            198,
            228,
            232,
            233,
        ],
        huffman_symbols(23) == seq![
            1u16,
            135,
            137,
            138,
            139,
            140,
            141,
            143,
            147,
            149,
            150,
            151,
            152,
            155,
            157,
            158,
            165,
            166,
            168,
            174,
            175,
            180,
            182,
            183,
            188,
            191,
            197,
            231,
            239,
        ],
        huffman_symbols(24) == seq![
            9u16,
            142,
            144,
            145,
            148,
            159,
            171,
            206,
            215,
            225,
            236,
            237,
        ],
        huffman_symbols(25) == seq![199u16, 207, 234, 235],
        huffman_symbols(26) == seq![
            192u16,
            193,
            200,
            201,
            202,
            205,
            210,
            213,
            218,
            219,
            238,
            240,
            242,
            243,
            255,
        ],
        huffman_symbols(27) == seq![
            203u16,
            204,
            211,
            212,
            214,
            221,
            222,
            223,
            241,
            244,
            245,
            246,
            247,
            248,
            250,
            251,
            252,
            253,
            254,
        ],
        huffman_symbols(28).len() == 29,
        huffman_symbols(28).take(7) == seq![2u16, 3, 4, 5, 6, 7, 8],
        huffman_symbols(28).subrange(7, 9) == seq![11u16, 12],
        forall|i: int| 9 <= i < 17 ==> #[trigger] huffman_symbols(28)[i] == 5 + i,
        forall|i: int| 17 <= i < 26 ==> #[trigger] huffman_symbols(28)[i] == 6 + i,
        huffman_symbols(28).skip(26) == seq![127u16, 220, 249],
{
    reveal(huffman_symbols);
}

/// Codes of a length follow each other, and those of the next length go on where they end, one bit
/// longer. The last code of all is thirty ones.
pub proof fn codes_follow_each_other(n: nat)
    ensures
        huffman_first(5) == 0,
        n >= 5 ==> huffman_first(n + 1) == 2 * (huffman_first(n) + huffman_symbols(n).len()),
        huffman_first(30) + huffman_symbols(30).len() == 0x4000_0000,
{
    letters_with_short_codes();
    bytes_with_long_codes();
    if n >= 5 {
        next_codes(n);
    }
    next_codes(5);
    assert(huffman_first(6) == 20);
    next_codes(6);
    assert(huffman_first(7) == 92);
    next_codes(7);
    assert(huffman_first(8) == 248);
    next_codes(8);
    assert(huffman_first(9) == 508);
    next_codes(9);
    assert(huffman_first(10) == 1016);
    next_codes(10);
    assert(huffman_first(11) == 2042);
    next_codes(11);
    assert(huffman_first(12) == 4090);
    next_codes(12);
    assert(huffman_first(13) == 8184);
    next_codes(13);
    assert(huffman_first(14) == 16380);
    next_codes(14);
    assert(huffman_first(15) == 32764);
    next_codes(15);
    assert(huffman_first(16) == 65534);
    next_codes(16);
    assert(huffman_first(17) == 131068);
    next_codes(17);
    assert(huffman_first(18) == 262136);
    next_codes(18);
    assert(huffman_first(19) == 524272);
    next_codes(19);
    assert(huffman_first(20) == 1048550);
    next_codes(20);
    assert(huffman_first(21) == 2097116);
    next_codes(21);
    assert(huffman_first(22) == 4194258);
    next_codes(22);
    assert(huffman_first(23) == 8388568);
    next_codes(23);
    assert(huffman_first(24) == 16777194);
    next_codes(24);
    assert(huffman_first(25) == 33554412);
    next_codes(25);
    assert(huffman_first(26) == 67108832);
    next_codes(26);
    assert(huffman_first(27) == 134217694);
    next_codes(27);
    assert(huffman_first(28) == 268435426);
    next_codes(28);
    assert(huffman_first(29) == 536870910);
    next_codes(29);
    assert(huffman_first(30) == 1073741820);
}

proof fn next_codes(n: nat)
    requires
        n >= 5,
    ensures
        huffman_first(n + 1) == 2 * (huffman_first(n) + huffman_symbols(n).len()),
        huffman_first(5) == 0,
{
    assert((n + 1 - 1) as nat == n);
}

/// Codes are read one after another up to the end mark, or to what is no code.
pub proof fn codes_are_read(sym: u16, code: Seq<bool>, rest: Seq<bool>, data: Seq<u8>)
    ensures
        sym < 256 && is_code(sym, code) ==> decode_bits(code + rest) == seq![sym as u8]
            + decode_bits(rest),
        is_code(256, code) ==> decode_bits(code + rest).len() == 0,
        huffman_bytes(data) == decode_bits(data_bits(data)),
        is_code(sym, code) <==> 5 <= code.len() <= 30 && huffman_first(code.len()) <= bits_value(
            code,
        ) && bits_value(code) < huffman_first(code.len()) + huffman_symbols(code.len()).len()
            && huffman_symbols(code.len())[bits_value(code) - huffman_first(code.len())] == sym,
{
    if sym < 256 && is_code(sym, code) {
        crate::huffman::huffman_prefix_free(sym, code, rest);
    }
    if is_code(EOS, code) {
        crate::huffman::huffman_end_marker(code, rest);
    }
}

} // verus!
