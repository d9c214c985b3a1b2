//! The static Huffman code of HPACK and QPACK (RFC 7541, appendix B).
//!
//! The code is canonical: codes of one length are consecutive numbers, and the codes
//! of the next length start right after them, one bit further. So the table lists the
//! symbols of each length in code order, and the codes follow from the counts.

use crate::text::{from_utf8_lossy, lossy_text};
use vstd::arithmetic::power2::{lemma2_to64, lemma_pow2_strictly_increases, lemma_pow2_unfold, pow2};
use vstd::prelude::*;

verus! {

/// The symbol that marks the end of a string.
pub const EOS: u16 = 256;

/// The length of the shortest code in bits.
pub const MIN_CODE_BITS: u8 = 5;

/// The length of the longest code in bits.
pub const MAX_CODE_BITS: u8 = 30;

/// The symbols whose codes are `len` bits long, in the order of their codes.
#[verifier::opaque]
pub open spec fn huffman_symbols(len: nat) -> Seq<u16> {
    if len == 5 {
        seq![
            48u16, 49, 50, 97, 99, 101, 105, 111, 115, 116,
        ]
    } else if len == 6 {
        seq![
            32u16, 37, 45, 46, 47, 51, 52, 53, 54, 55, 56, 57, 61, 65, 95, 98, 100, 102, 103,
            104, 108, 109, 110, 112, 114, 117,
        ]
    } else if len == 7 {
        seq![
            58u16, 66, 67, 68, 69, 70, 71, 72, 73, 74, 75, 76, 77, 78, 79, 80, 81, 82, 83, 84,
            85, 86, 87, 89, 106, 107, 113, 118, 119, 120, 121, 122,
        ]
    } else if len == 8 {
        seq![
            38u16, 42, 44, 59, 88, 90,
        ]
    } else if len == 10 {
        seq![
            33u16, 34, 40, 41, 63,
        ]
    } else if len == 11 {
        seq![
            39u16, 43, 124,
        ]
    } else if len == 12 {
        seq![
            35u16, 62,
        ]
    } else if len == 13 {
        seq![
            0u16, 36, 64, 91, 93, 126,
        ]
    } else if len == 14 {
        seq![
            94u16, 125,
        ]
    } else if len == 15 {
        seq![
            60u16, 96, 123,
        ]
    } else if len == 19 {
        seq![
            92u16, 195, 208,
        ]
    } else if len == 20 {
        seq![
            128u16, 130, 131, 162, 184, 194, 224, 226,
        ]
    } else if len == 21 {
        seq![
            153u16, 161, 167, 172, 176, 177, 179, 209, 216, 217, 227, 229, 230,
        ]
    } else if len == 22 {
        seq![
            129u16, 132, 133, 134, 136, 146, 154, 156, 160, 163, 164, 169, 170, 173, 178, 181,
            185, 186, 187, 189, 190, 196, 198, 228, 232, 233,
        ]
    } else if len == 23 {
        seq![
            1u16, 135, 137, 138, 139, 140, 141, 143, 147, 149, 150, 151, 152, 155, 157, 158,
            165, 166, 168, 174, 175, 180, 182, 183, 188, 191, 197, 231, 239,
        ]
    } else if len == 24 {
        seq![
            9u16, 142, 144, 145, 148, 159, 171, 206, 215, 225, 236, 237,
        ]
    } else if len == 25 {
        seq![
            199u16, 207, 234, 235,
        ]
    } else if len == 26 {
        seq![
            192u16, 193, 200, 201, 202, 205, 210, 213, 218, 219, 238, 240, 242, 243, 255,
        ]
    } else if len == 27 {
        seq![
            203u16, 204, 211, 212, 214, 221, 222, 223, 241, 244, 245, 246, 247, 248, 250, 251,
            252, 253, 254,
        ]
    } else if len == 28 {
        seq![
            2u16, 3, 4, 5, 6, 7, 8, 11, 12, 14, 15, 16, 17, 18, 19, 20, 21, 23, 24, 25, 26, 27,
            28, 29, 30, 31, 127, 220, 249,
        ]
    } else if len == 30 {
        seq![
            10u16, 13, 22, 256,
        ]
    } else {
        seq![]
    }
}

/// The first code of `len` bits.
pub open spec fn huffman_first(len: nat) -> nat
    decreases len,
{
    if len <= MIN_CODE_BITS {
        0
    } else {
        2 * (huffman_first((len - 1) as nat) + huffman_symbols((len - 1) as nat).len())
    }
}

/// The number that `bits` spells, high bit first.
pub open spec fn bits_value(bits: Seq<bool>) -> nat
    decreases bits.len(),
{
    if bits.len() == 0 {
        0
    } else {
        2 * bits_value(bits.drop_last()) + if bits.last() {
            1nat
        } else {
            0nat
        }
    }
}

/// The weight of the `k`-th bit of a byte, counted from the high end.
pub open spec fn bit_weight(k: int) -> nat {
    if k == 0 {
        128
    } else if k == 1 {
        64
    } else if k == 2 {
        32
    } else if k == 3 {
        16
    } else if k == 4 {
        8
    } else if k == 5 {
        4
    } else if k == 6 {
        2
    } else {
        1
    }
}

/// The bits of `data`, high bit of each byte first.
pub open spec fn data_bits(data: Seq<u8>) -> Seq<bool> {
    Seq::new(8 * data.len(), |i: int| data[i / 8] as nat / bit_weight(i % 8) % 2 == 1)
}

/// `bits` is the code of `sym`.
pub open spec fn is_code(sym: u16, bits: Seq<bool>) -> bool {
    let n = bits.len();
    let v = bits_value(bits);
    &&& MIN_CODE_BITS <= n <= MAX_CODE_BITS
    &&& huffman_first(n) <= v < huffman_first(n) + huffman_symbols(n).len()
    &&& huffman_symbols(n)[v - huffman_first(n)] == sym
}

/// The first code of at least `len` bits at the start of `bits`: its symbol and length.
pub open spec fn code_match(bits: Seq<bool>, len: nat) -> Option<(u16, nat)>
    decreases 31 - len,
{
    if len > MAX_CODE_BITS || len > bits.len() {
        None
    } else {
        let v = bits_value(bits.take(len as int));
        if huffman_first(len) <= v < huffman_first(len) + huffman_symbols(len).len() {
            Some((huffman_symbols(len)[v - huffman_first(len)], len))
        } else {
            code_match(bits, len + 1)
        }
    }
}

/// The bytes that `bits` stands for, up to the end marker or to the first place where
/// no whole code starts.
pub open spec fn decode_bits(bits: Seq<bool>) -> Seq<u8>
    decreases bits.len(),
{
    match code_match(bits, MIN_CODE_BITS as nat) {
        Some((sym, len)) => if sym < EOS && 0 < len <= bits.len() {
            seq![sym as u8] + decode_bits(bits.skip(len as int))
        } else {
            Seq::empty()
        },
        None => Seq::empty(),
    }
}

/// The bytes that the Huffman-coded string `data` stands for.
pub open spec fn huffman_bytes(data: Seq<u8>) -> Seq<u8> {
    decode_bits(data_bits(data))
}

proof fn take_value(bits: Seq<bool>, len: nat)
    requires
        len < bits.len(),
    ensures
        bits_value(bits.take(len as int + 1)) == 2 * bits_value(bits.take(len as int)) + if bits[len as int] {
            1nat
        } else {
            0nat
        },
{
    assert(bits.take(len as int + 1).drop_last() =~= bits.take(len as int));
}

/// Once a prefix lies beyond the codes of its length, so does every longer prefix.
proof fn beyond_stays(bits: Seq<bool>, len: nat, to: nat)
    requires
        MIN_CODE_BITS <= len <= to <= bits.len(),
        bits_value(bits.take(to as int)) >= huffman_first(to),
    ensures
        len < to ==> bits_value(bits.take(len as int)) >= huffman_first(len) + huffman_symbols(
            len,
        ).len(),
    decreases to - len,
{
    if len < to {
        take_value(bits, (to - 1) as nat);
        let v = bits_value(bits.take(to - 1));
        assert(v >= huffman_first((to - 1) as nat) + huffman_symbols((to - 1) as nat).len());
        if len < to - 1 {
            beyond_stays(bits, len, (to - 1) as nat);
        }
    }
}

proof fn match_found(bits: Seq<bool>, len: nat, to: nat, sym: u16)
    requires
        MIN_CODE_BITS <= len <= to <= bits.len(),
        is_code(sym, bits.take(to as int)),
    ensures
        code_match(bits, len) == Some((sym, to)),
    decreases to - len,
{
    if len < to {
        beyond_stays(bits, len, to);
        match_found(bits, len + 1, to, sym);
    }
}

/// No code is the start of another: a string that begins with the code of a symbol
/// decodes to that symbol and then to what the rest decodes to.
pub proof fn huffman_prefix_free(sym: u16, code: Seq<bool>, rest: Seq<bool>)
    requires
        sym < EOS,
        is_code(sym, code),
    ensures
        decode_bits(code + rest) == seq![sym as u8] + decode_bits(rest),
{
    let bits = code + rest;
    assert(bits.take(code.len() as int) =~= code);
    match_found(bits, MIN_CODE_BITS as nat, code.len(), sym);
    assert(bits.skip(code.len() as int) =~= rest);
}

/// The end marker stops the decoding, whatever follows it.
pub proof fn huffman_end_marker(code: Seq<bool>, rest: Seq<bool>)
    requires
        is_code(EOS, code),
    ensures
        decode_bits(code + rest) == Seq::<u8>::empty(),
{
    let bits = code + rest;
    assert(bits.take(code.len() as int) =~= code);
    match_found(bits, MIN_CODE_BITS as nat, code.len(), EOS);
}

proof fn value_bound(bits: Seq<bool>)
    ensures
        bits_value(bits) < pow2(bits.len()),
    decreases bits.len(),
{
    if bits.len() > 0 {
        value_bound(bits.drop_last());
        lemma_pow2_unfold(bits.len());
    } else {
        lemma2_to64();
    }
}

fn symbols_of(len: u8) -> (symbols: Vec<u16>)
    ensures
        symbols@.len() <= 32,
        symbols@ == huffman_symbols(len as nat),
{
    let symbols: Vec<u16> = if len == 5 {
        vec![
            48u16, 49, 50, 97, 99, 101, 105, 111, 115, 116,
        ]
    } else if len == 6 {
        vec![
            32u16, 37, 45, 46, 47, 51, 52, 53, 54, 55, 56, 57, 61, 65, 95, 98, 100, 102, 103,
            104, 108, 109, 110, 112, 114, 117,
        ]
    } else if len == 7 {
        vec![
            58u16, 66, 67, 68, 69, 70, 71, 72, 73, 74, 75, 76, 77, 78, 79, 80, 81, 82, 83, 84,
            85, 86, 87, 89, 106, 107, 113, 118, 119, 120, 121, 122,
        ]
    } else if len == 8 {
        vec![
            38u16, 42, 44, 59, 88, 90,
        ]
    } else if len == 10 {
        vec![
            33u16, 34, 40, 41, 63,
        ]
    } else if len == 11 {
        vec![
            39u16, 43, 124,
        ]
    } else if len == 12 {
        vec![
            35u16, 62,
        ]
    } else if len == 13 {
        vec![
            0u16, 36, 64, 91, 93, 126,
        ]
    } else if len == 14 {
        vec![
            94u16, 125,
        ]
    } else if len == 15 {
        vec![
            60u16, 96, 123,
        ]
    } else if len == 19 {
        vec![
            92u16, 195, 208,
        ]
    } else if len == 20 {
        vec![
            128u16, 130, 131, 162, 184, 194, 224, 226,
        ]
    } else if len == 21 {
        vec![
            153u16, 161, 167, 172, 176, 177, 179, 209, 216, 217, 227, 229, 230,
        ]
    } else if len == 22 {
        vec![
            129u16, 132, 133, 134, 136, 146, 154, 156, 160, 163, 164, 169, 170, 173, 178, 181,
            185, 186, 187, 189, 190, 196, 198, 228, 232, 233,
        ]
    } else if len == 23 {
        vec![
            1u16, 135, 137, 138, 139, 140, 141, 143, 147, 149, 150, 151, 152, 155, 157, 158,
            165, 166, 168, 174, 175, 180, 182, 183, 188, 191, 197, 231, 239,
        ]
    } else if len == 24 {
        vec![
            9u16, 142, 144, 145, 148, 159, 171, 206, 215, 225, 236, 237,
        ]
    } else if len == 25 {
        vec![
            199u16, 207, 234, 235,
        ]
    } else if len == 26 {
        vec![
            192u16, 193, 200, 201, 202, 205, 210, 213, 218, 219, 238, 240, 242, 243, 255,
        ]
    } else if len == 27 {
        vec![
            203u16, 204, 211, 212, 214, 221, 222, 223, 241, 244, 245, 246, 247, 248, 250, 251,
            252, 253, 254,
        ]
    } else if len == 28 {
        vec![
            2u16, 3, 4, 5, 6, 7, 8, 11, 12, 14, 15, 16, 17, 18, 19, 20, 21, 23, 24, 25, 26, 27,
            28, 29, 30, 31, 127, 220, 249,
        ]
    } else if len == 30 {
        vec![
            10u16, 13, 22, 256,
        ]
    } else {
        Vec::new()
    };
    proof {
        reveal(huffman_symbols);
    }
    assert(symbols@ =~= huffman_symbols(len as nat));
    symbols
}

/// The `i`-th bit of `data`.
fn bit(data: &[u8], i: u128) -> (b: bool)
    requires
        i < 8 * data@.len(),
    ensures
        b == data_bits(data@)[i as int],
{
    let k: u128 = i % 8;
    let weight: u8 = if k == 0 {
        128
    } else if k == 1 {
        64
    } else if k == 2 {
        32
    } else if k == 3 {
        16
    } else if k == 4 {
        8
    } else if k == 5 {
        4
    } else if k == 6 {
        2
    } else {
        1
    };
    data[(i / 8) as usize] / weight % 2 == 1
}

/// Finds the code that starts at bit `at`.
fn match_at(data: &[u8], at: u128) -> (found: Option<(u16, u128)>)
    requires
        at <= 8 * data@.len(),
    ensures
        match (found, code_match(data_bits(data@).skip(at as int), MIN_CODE_BITS as nat)) {
            (Some((s, n)), Some((t, m))) => s == t && n as nat == m,
            (None, None) => true,
            _ => false,
        },
        found matches Some((_, n)) ==> 0 < n && at + n <= 8 * data@.len(),
{
    let ghost bits = data_bits(data@).skip(at as int);
    let total: u128 = 8 * data.len() as u128 - at;
    let mut value: u64 = 0;
    let mut first: u64 = 0;
    let mut len: u8 = 0;
    proof {
        lemma2_to64();
    }
    while len < MAX_CODE_BITS && (len as u128) < total
        invariant_except_break
            code_match(bits, MIN_CODE_BITS as nat) == code_match(
                bits,
                if len < MIN_CODE_BITS {
                    MIN_CODE_BITS as nat
                } else {
                    (len + 1) as nat
                },
            ),
        invariant
            bits == data_bits(data@).skip(at as int),
            at <= 8 * data@.len(),
            data@.len() <= usize::MAX,
            total == bits.len(),
            total == 8 * data@.len() - at,
            len <= MAX_CODE_BITS,
            len <= total,
            value == bits_value(bits.take(len as int)),
            first + 64 <= 64 * pow2(len as nat),
            first == huffman_first((len + 1) as nat),
        ensures
            code_match(bits, MIN_CODE_BITS as nat) is None,
        decreases MAX_CODE_BITS - len,
    {
        let set: bool = bit(data, at + len as u128);
        proof {
            take_value(bits, len as nat);
            assert(set == bits[len as int]);
            value_bound(bits.take(len as int));
            lemma2_to64();
            lemma_pow2_unfold((len + 1) as nat);
            lemma_pow2_strictly_increases(len as nat, 30);
        }
        value = 2 * value + if set {
            1
        } else {
            0
        };
        len += 1;
        if len >= MIN_CODE_BITS {
            let symbols: Vec<u16> = symbols_of(len);
            if first <= value && value - first < symbols.len() as u64 {
                return Some((symbols[(value - first) as usize], len as u128));
            }
            first = 2 * (first + symbols.len() as u64);
        }
    }
    None
}

/// Decodes a Huffman-coded string. Decoding stops at the end marker and at the padding
/// or damage where no code matches; bytes that are not UTF-8 are replaced.
pub fn huffman_decode(data: &[u8]) -> (text: String)
    ensures
        text@ == lossy_text(huffman_bytes(data@)),
{
    let mut out: Vec<u8> = Vec::new();
    let total: u128 = 8 * data.len() as u128;
    let mut at: u128 = 0;
    let ghost bits = data_bits(data@);
    assert(bits.skip(0) =~= bits);
    while at < total
        invariant_except_break
            out@ + decode_bits(bits.skip(at as int)) == huffman_bytes(data@),
        invariant
            bits == data_bits(data@),
            total == 8 * data@.len(),
            at <= total,
        ensures
            out@ == huffman_bytes(data@),
        decreases total - at,
    {
        match match_at(data, at) {
            Some((sym, n)) => {
                if sym >= EOS {
                    assert(out@ + Seq::<u8>::empty() =~= out@);
                    break;
                }
                let ghost before = out@;
                out.push(sym as u8);
                proof {
                    assert(bits.skip(at as int).skip(n as int) =~= bits.skip(at + n));
                    let tail = decode_bits(bits.skip(at + n));
                    assert(before + (seq![sym as u8] + tail) =~= out@ + tail);
                }
                at += n;
            },
            None => {
                assert(out@ + Seq::<u8>::empty() =~= out@);
                break;
            },
        }
    }
    from_utf8_lossy(&out)
}

} // verus!
