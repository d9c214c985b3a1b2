//! Hexadecimal and base64, and the trimming of settings.

use crate::text::{chars_of, hex_value, text_of};
use base64::Engine;
use vstd::prelude::*;

verus! {

/// Whether every character is a hexadecimal digit.
pub open spec fn all_hex(s: Seq<char>) -> bool {
    forall|i: int| 0 <= i < s.len() ==> hex_value(#[trigger] s[i]) is Some
}

/// The bytes that pairs of hexadecimal digits spell.
pub open spec fn hex_bytes(s: Seq<char>) -> Seq<u8> {
    Seq::new(
        s.len() / 2,
        |i: int| (16 * hex_value(s[2 * i]).unwrap() + hex_value(s[2 * i + 1]).unwrap()) as u8,
    )
}

/// `hex::decode` of the `hex` crate: pairs of digits of either case, and an error exactly on
/// an odd number of characters or on another character.
#[verifier::external_body]
pub(crate) fn hex_decode(s: &str) -> (bytes: Option<Vec<u8>>)
    ensures
        bytes is Some <==> (s@.len() % 2 == 0 && all_hex(s@)),
        bytes matches Some(b) ==> b@ == hex_bytes(s@),
{
    hex::decode(s).ok()
}

/// What base64 with the standard alphabet and padding decodes to, as the `base64` crate
/// computes it.
pub uninterp spec fn base64_standard(s: Seq<char>) -> Option<Seq<u8>>;

/// What base64 with the URL-safe alphabet and without padding decodes to, as the `base64`
/// crate computes it.
pub uninterp spec fn base64_url(s: Seq<char>) -> Option<Seq<u8>>;

/// Base64 of bytes with the standard alphabet and padding, as the `base64` crate computes it.
pub uninterp spec fn base64_text(bytes: Seq<u8>) -> Seq<char>;

/// `Engine::decode` of the `base64` crate with `STANDARD`. What it accepts is left unsaid.
#[verifier::external_body]
pub(crate) fn base64_decode(s: &str) -> (bytes: Option<Vec<u8>>)
    ensures
        bytes is Some <==> base64_standard(s@) is Some,
        bytes matches Some(b) ==> base64_standard(s@) == Some(b@),
{
    base64::engine::general_purpose::STANDARD.decode(s).ok()
}

/// `Engine::decode` of the `base64` crate with `URL_SAFE_NO_PAD`. What it accepts is left
/// unsaid.
#[verifier::external_body]
pub(crate) fn base64_url_decode(s: &str) -> (bytes: Option<Vec<u8>>)
    ensures
        bytes is Some <==> base64_url(s@) is Some,
        bytes matches Some(b) ==> base64_url(s@) == Some(b@),
{
    base64::engine::general_purpose::URL_SAFE_NO_PAD.decode(s).ok()
}

/// `Engine::encode` of the `base64` crate with `STANDARD`.
#[verifier::external_body]
pub(crate) fn base64_encode(bytes: &[u8]) -> (s: String)
    ensures
        s@ == base64_text(bytes@),
{
    base64::engine::general_purpose::STANDARD.encode(bytes)
}

/// Whether `c` is white space in Unicode.
pub open spec fn is_space(c: char) -> bool {
    let n = c as u32;
    ||| 9 <= n <= 13
    ||| n == 0x20
    ||| n == 0x85
    ||| n == 0xa0
    ||| n == 0x1680
    ||| 0x2000 <= n <= 0x200a
    ||| n == 0x2028
    ||| n == 0x2029
    ||| n == 0x202f
    ||| n == 0x205f
    ||| n == 0x3000
}

/// `s` without white space at its start.
pub open spec fn trim_start(s: Seq<char>) -> Seq<char>
    decreases s.len(),
{
    if s.len() > 0 && is_space(s[0]) {
        trim_start(s.skip(1))
    } else {
        s
    }
}

/// `s` without white space at its end.
pub open spec fn trim_end(s: Seq<char>) -> Seq<char>
    decreases s.len(),
{
    if s.len() > 0 && is_space(s.last()) {
        trim_end(s.drop_last())
    } else {
        s
    }
}

/// `s` without white space at either end.
pub open spec fn trimmed(s: Seq<char>) -> Seq<char> {
    trim_end(trim_start(s))
}

/// Whether `c` is white space.
pub fn space(c: char) -> (yes: bool)
    ensures
        yes == is_space(c),
{
    let n: u32 = c as u32;
    (9 <= n && n <= 13) || n == 0x20 || n == 0x85 || n == 0xa0 || n == 0x1680 || (0x2000 <= n && n
        <= 0x200a) || n == 0x2028 || n == 0x2029 || n == 0x202f || n == 0x205f || n == 0x3000
}

/// Removes white space at either end.
pub fn trim(s: &str) -> (out: String)
    ensures
        out@ == trimmed(s@),
{
    let chars: Vec<char> = chars_of(s);
    let mut from: usize = 0;
    assert(chars@.skip(0) =~= chars@);
    while from < chars.len() && space(chars[from])
        invariant
            from <= chars@.len(),
            chars@ == s@,
            trim_start(s@) == trim_start(chars@.skip(from as int)),
        decreases chars@.len() - from,
    {
        assert(chars@.skip(from as int).skip(1) =~= chars@.skip(from + 1));
        from += 1;
    }
    let ghost start = chars@.skip(from as int);
    assert(trim_start(s@) == start);
    let mut to: usize = chars.len();
    assert(chars@.subrange(from as int, to as int) =~= start);
    while to > from && space(chars[to - 1])
        invariant
            from <= to <= chars@.len(),
            trim_end(start) == trim_end(chars@.subrange(from as int, to as int)),
        decreases to,
    {
        assert(chars@.subrange(from as int, to as int).drop_last() =~= chars@.subrange(
            from as int,
            to - 1,
        ));
        to -= 1;
    }
    text_of(&chars, from, to)
}

} // verus!
