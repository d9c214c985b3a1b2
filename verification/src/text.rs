//! Numbers in text, and the string helpers that the text formats share.

use vstd::prelude::*;
use vstd::utf8::{decode_utf8, valid_utf8};

verus! {

/// What `String::from_utf8_lossy` of std makes of bytes that are not UTF-8.
pub uninterp spec fn utf8_lossy(bytes: Seq<u8>) -> Seq<char>;

/// The text that `bytes` spell in UTF-8, with replacement characters where they do not.
pub open spec fn lossy_text(bytes: Seq<u8>) -> Seq<char> {
    if valid_utf8(bytes) {
        decode_utf8(bytes)
    } else {
        utf8_lossy(bytes)
    }
}

/// `String::from_utf8_lossy` of std: UTF-8 is decoded as it stands; of other bytes the
/// result is only named.
#[verifier::external_body]
pub(crate) fn from_utf8_lossy(bytes: &[u8]) -> (text: String)
    ensures
        valid_utf8(bytes@) ==> text@ == decode_utf8(bytes@),
        !valid_utf8(bytes@) ==> text@ == utf8_lossy(bytes@),
{
    String::from_utf8_lossy(bytes).into_owned()
}

/// `String::push` of std: appends one character to the end of the string.
pub assume_specification[ String::push ](s: &mut String, c: char)
    ensures
        final(s)@ == old(s)@.push(c),
;

/// `String::from_utf8` of std: the text that the bytes spell, or nothing where they are not
/// UTF-8.
#[verifier::external_body]
pub(crate) fn utf8_text(bytes: &[u8]) -> (text: Option<String>)
    ensures
        text is Some <==> valid_utf8(bytes@),
        text matches Some(t) ==> t@ == decode_utf8(bytes@),
{
    String::from_utf8(bytes.to_vec()).ok()
}

/// The character that stands for the digit `d`, with lower-case letters from ten on.
pub open spec fn digit_char(d: nat) -> char {
    if d < 10 {
        (48 + d) as char
    } else {
        (87 + d) as char
    }
}

/// `n` in decimal, without leading zeros.
pub open spec fn dec_text(n: nat) -> Seq<char>
    decreases n,
{
    if n < 10 {
        seq![digit_char(n)]
    } else {
        dec_text(n / 10).push(digit_char(n % 10))
    }
}

/// `n` in hexadecimal, lower case, without leading zeros.
pub open spec fn hex_text(n: nat) -> Seq<char>
    decreases n,
{
    if n < 16 {
        seq![digit_char(n)]
    } else {
        hex_text(n / 16).push(digit_char(n % 16))
    }
}

pub fn digit(d: u8) -> (c: char)
    requires
        d < 16,
    ensures
        c == digit_char(d as nat),
{
    if d < 10 {
        (48 + d) as char
    } else {
        (87 + d) as char
    }
}

/// Appends `n` in decimal to `out`.
pub fn push_dec(out: &mut String, n: u64)
    ensures
        final(out)@ == old(out)@ + dec_text(n as nat),
    decreases n,
{
    if n >= 10 {
        push_dec(out, n / 10);
    }
    out.push(digit((n % 10) as u8));
    assert(out@ =~= old(out)@ + dec_text(n as nat));
}

/// Appends `n` in lower-case hexadecimal to `out`.
pub fn push_hex(out: &mut String, n: u64)
    ensures
        final(out)@ == old(out)@ + hex_text(n as nat),
    decreases n,
{
    if n >= 16 {
        push_hex(out, n / 16);
    }
    out.push(digit((n % 16) as u8));
    assert(out@ =~= old(out)@ + hex_text(n as nat));
}

/// A byte as two digits of lower-case hexadecimal.
pub open spec fn hex_byte_text(b: u8) -> Seq<char> {
    seq![digit_char((b / 16) as nat), digit_char((b % 16) as nat)]
}

/// Appends a byte as two digits of lower-case hexadecimal.
pub fn push_hex_byte(out: &mut String, b: u8)
    ensures
        final(out)@ == old(out)@ + hex_byte_text(b),
{
    out.push(digit(b / 16));
    out.push(digit(b % 16));
    assert(out@ =~= old(out)@ + hex_byte_text(b));
}

/// The characters of `s`.
pub fn chars_of(s: &str) -> (chars: Vec<char>)
    ensures
        chars@ == s@,
{
    let n: usize = s.unicode_len();
    let mut chars: Vec<char> = Vec::new();
    let mut i: usize = 0;
    while i < n
        invariant
            n == s@.len(),
            i <= n,
            chars@ == s@.take(i as int),
        decreases n - i,
    {
        chars.push(s.get_char(i));
        i += 1;
        assert(chars@ =~= s@.take(i as int));
    }
    assert(s@.take(n as int) =~= s@);
    chars
}

/// The string of `chars[from..to]`.
pub fn text_of(chars: &[char], from: usize, to: usize) -> (s: String)
    requires
        from <= to <= chars@.len(),
    ensures
        s@ == chars@.subrange(from as int, to as int),
{
    let mut s: String = String::new();
    let mut i: usize = from;
    while i < to
        invariant
            from <= i <= to <= chars@.len(),
            s@ == chars@.subrange(from as int, i as int),
        decreases to - i,
    {
        s.push(chars[i]);
        i += 1;
        assert(s@ =~= chars@.subrange(from as int, i as int));
    }
    s
}

/// Whether the two strings are the same.
pub fn text_eq(a: &str, b: &str) -> (same: bool)
    ensures
        same == (a@ == b@),
{
    chars_eq(&chars_of(a), &chars_of(b))
}

/// Whether the two character lists are the same.
pub fn chars_eq(a: &[char], b: &[char]) -> (same: bool)
    ensures
        same == (a@ == b@),
{
    if a.len() != b.len() {
        return false;
    }
    let mut i: usize = 0;
    while i < a.len()
        invariant
            i <= a@.len(),
            a@.len() == b@.len(),
            forall|j: int| 0 <= j < i ==> a@[j] == b@[j],
        decreases a@.len() - i,
    {
        if a[i] != b[i] {
            return false;
        }
        i += 1;
    }
    assert(a@ =~= b@);
    true
}

/// `c` with an ASCII capital letter made small.
pub open spec fn lower_char(c: char) -> char {
    if 'A' <= c <= 'Z' {
        (c as u32 + 32) as char
    } else {
        c
    }
}

/// `s` with ASCII capital letters made small.
pub open spec fn lower_text(s: Seq<char>) -> Seq<char> {
    s.map_values(|c: char| lower_char(c))
}

/// `c` with an ASCII capital letter made small.
pub fn to_lower(c: char) -> (r: char)
    ensures
        r == lower_char(c),
{
    if 'A' <= c && c <= 'Z' {
        (c as u8 + 32) as char
    } else {
        c
    }
}

/// `s` with ASCII capital letters made small.
pub fn to_lower_text(s: &str) -> (out: String)
    ensures
        out@ == lower_text(s@),
{
    let chars: Vec<char> = chars_of(s);
    let mut out: String = String::new();
    let mut i: usize = 0;
    while i < chars.len()
        invariant
            i <= chars@.len(),
            out@ == lower_text(chars@.take(i as int)),
        decreases chars@.len() - i,
    {
        out.push(to_lower(chars[i]));
        i += 1;
        assert(out@ =~= lower_text(chars@.take(i as int)));
    }
    assert(chars@.take(i as int) =~= chars@);
    out
}

/// Whether the two strings agree up to the case of ASCII letters.
pub fn eq_ignore_case(a: &str, b: &str) -> (same: bool)
    ensures
        same == (lower_text(a@) == lower_text(b@)),
{
    text_eq(&to_lower_text(a), &to_lower_text(b))
}

/// Whether `c` is an ASCII decimal digit.
pub open spec fn is_dec_digit(c: char) -> bool {
    '0' <= c <= '9'
}

/// The number that the digits of `s` spell.
pub open spec fn digits_value(s: Seq<char>) -> nat
    decreases s.len(),
{
    if s.len() == 0 {
        0
    } else {
        digits_value(s.drop_last()) * 10 + (s.last() as nat - 48) as nat
    }
}

/// `s` without a leading plus sign.
pub open spec fn unsigned_digits(s: Seq<char>) -> Seq<char> {
    if s.len() > 0 && s[0] == '+' {
        s.skip(1)
    } else {
        s
    }
}

/// The number that `s` writes in decimal, if it is digits alone after an optional plus
/// sign and at most `max`.
pub open spec fn parsed_number(s: Seq<char>, max: nat) -> Option<nat> {
    let d = unsigned_digits(s);
    if d.len() > 0 && (forall|i: int| 0 <= i < d.len() ==> is_dec_digit(d[i])) && digits_value(d)
        <= max {
        Some(digits_value(d))
    } else {
        None
    }
}

/// The value only grows with each further digit.
proof fn digits_grow(s: Seq<char>, i: int)
    requires
        0 <= i <= s.len(),
    ensures
        digits_value(s.take(i)) <= digits_value(s),
    decreases s.len() - i,
{
    if i < s.len() {
        digits_grow(s, i + 1);
        assert(s.take(i + 1).drop_last() =~= s.take(i));
    } else {
        assert(s.take(i) =~= s);
    }
}

/// Reads a decimal number of at most `max`.
pub fn parse_number(s: &str, max: u64) -> (n: Option<u64>)
    ensures
        match (n, parsed_number(s@, max as nat)) {
            (Some(a), Some(b)) => a as nat == b,
            (None, None) => true,
            _ => false,
        },
{
    let chars: Vec<char> = chars_of(s);
    let start: usize = if chars.len() > 0 && chars[0] == '+' {
        1
    } else {
        0
    };
    let ghost d = unsigned_digits(s@);
    assert(chars@.skip(start as int) =~= d);
    if start == chars.len() {
        return None;
    }
    let mut n: u64 = 0;
    let mut i: usize = start;
    while i < chars.len()
        invariant
            d == chars@.skip(start as int),
            start <= i <= chars@.len(),
            forall|j: int| 0 <= j < i - start ==> is_dec_digit(d[j]),
            n as nat == digits_value(d.take(i - start)),
            n <= max,
            d == unsigned_digits(s@),
        decreases chars@.len() - i,
    {
        let c: char = chars[i];
        assert(d[i - start] == c);
        if !('0' <= c && c <= '9') {
            return None;
        }
        let x: u64 = (c as u8 - 48) as u64;
        proof {
            assert(d.take(i - start + 1).drop_last() =~= d.take(i - start));
            digits_grow(d, i - start + 1);
        }
        if n > (u64::MAX - x) / 10 {
            return None;
        }
        n = n * 10 + x;
        if n > max {
            return None;
        }
        i += 1;
    }
    assert(d.take(d.len() as int) =~= d);
    Some(n)
}

/// The value of a hexadecimal digit.
pub open spec fn hex_value(c: char) -> Option<nat> {
    if '0' <= c <= '9' {
        Some((c as nat - 48) as nat)
    } else if 'a' <= c <= 'f' {
        Some((c as nat - 87) as nat)
    } else if 'A' <= c <= 'F' {
        Some((c as nat - 55) as nat)
    } else {
        None
    }
}

/// The number that hexadecimal digits spell, if all are such digits.
pub open spec fn hex_number(s: Seq<char>) -> Option<nat>
    decreases s.len(),
{
    if s.len() == 0 {
        Some(0)
    } else {
        match (hex_number(s.drop_last()), hex_value(s.last())) {
            (Some(n), Some(d)) => Some(n * 16 + d),
            _ => None,
        }
    }
}

/// The 32-bit number that `s` writes in hexadecimal, after an optional plus sign.
pub open spec fn parsed_hex32(s: Seq<char>) -> Option<nat> {
    let d = unsigned_digits(s);
    match hex_number(d) {
        Some(n) if d.len() > 0 && n <= u32::MAX => Some(n),
        _ => None,
    }
}

/// A number only grows with each further digit, and a bad digit stays bad.
proof fn hex_grows(s: Seq<char>, i: int)
    requires
        0 <= i <= s.len(),
    ensures
        hex_number(s) is Some ==> hex_number(s.take(i)) is Some && hex_number(s.take(i))->Some_0
            <= hex_number(s)->Some_0,
    decreases s.len() - i,
{
    if i < s.len() {
        hex_grows(s, i + 1);
        assert(s.take(i + 1).drop_last() =~= s.take(i));
    } else {
        assert(s.take(i) =~= s);
    }
}

fn hex_digit_of(c: char) -> (d: Option<u64>)
    ensures
        match (d, hex_value(c)) {
            (Some(a), Some(b)) => a as nat == b && a < 16,
            (None, None) => true,
            _ => false,
        },
{
    if '0' <= c && c <= '9' {
        Some((c as u32 - 48) as u64)
    } else if 'a' <= c && c <= 'f' {
        Some((c as u32 - 87) as u64)
    } else if 'A' <= c && c <= 'F' {
        Some((c as u32 - 55) as u64)
    } else {
        None
    }
}

/// Reads a hexadecimal number of at most 32 bits.
pub fn parse_hex32(s: &str) -> (n: Option<u32>)
    ensures
        match (n, parsed_hex32(s@)) {
            (Some(a), Some(b)) => a as nat == b,
            (None, None) => true,
            _ => false,
        },
{
    let chars: Vec<char> = chars_of(s);
    let start: usize = if chars.len() > 0 && chars[0] == '+' {
        1
    } else {
        0
    };
    let ghost d = unsigned_digits(s@);
    assert(chars@.skip(start as int) =~= d);
    if start == chars.len() {
        return None;
    }
    let mut n: u64 = 0;
    let mut i: usize = start;
    while i < chars.len()
        invariant
            d == chars@.skip(start as int),
            d == unsigned_digits(s@),
            start <= i <= chars@.len(),
            hex_number(d.take(i - start)) == Some(n as nat),
            n <= 0xffff_ffff,
        decreases chars@.len() - i,
    {
        assert(d.take(i - start + 1).drop_last() =~= d.take(i - start));
        assert(d.take(i - start + 1).last() == chars@[i as int]);
        proof {
            hex_grows(d, i - start + 1);
        }
        let x: u64 = match hex_digit_of(chars[i]) {
            Some(x) => x,
            None => {
                return None;
            },
        };
        n = n * 16 + x;
        if n > 0xffff_ffff {
            return None;
        }
        i += 1;
    }
    assert(d.take(d.len() as int) =~= d);
    Some(n as u32)
}

/// Whether `part` occurs in `s` as a run of characters.
pub open spec fn has_part(s: Seq<char>, part: Seq<char>) -> bool {
    exists|i: int| 0 <= i && i + part.len() <= s.len() && #[trigger] s.subrange(
        i,
        i + part.len(),
    ) == part
}

/// Whether `part` occurs in `s`.
pub fn contains_text(s: &str, part: &str) -> (found: bool)
    ensures
        found == has_part(s@, part@),
{
    let a: Vec<char> = chars_of(s);
    let b: Vec<char> = chars_of(part);
    if b.len() > a.len() {
        return false;
    }
    let mut i: usize = 0;
    let last: usize = a.len() - b.len();
    loop
        invariant
            b@.len() <= a@.len(),
            last + b.len() == a.len(),
            i <= last,
            a@ == s@,
            b@ == part@,
            forall|j: int| 0 <= j < i ==> #[trigger] a@.subrange(j, j + b@.len()) != b@,
        decreases last - i,
    {
        let here: &[char] = &a[i..i + b.len()];
        if chars_eq(here, &b) {
            assert(s@.subrange(i as int, i + part@.len()) == part@);
            return true;
        }
        if i == last {
            return false;
        }
        i += 1;
    }
}

/// Where `part` first occurs in `s` at or behind `from`.
pub open spec fn first_at(s: Seq<char>, part: Seq<char>, from: int) -> Option<int>
    decreases s.len() + 1 - from,
{
    if from < 0 || from + part.len() > s.len() {
        None
    } else if s.subrange(from, from + part.len()) == part {
        Some(from)
    } else {
        first_at(s, part, from + 1)
    }
}

/// Finds the first occurrence of `part` at or behind `from`.
pub fn find_text(s: &[char], part: &[char], from: usize) -> (at: Option<usize>)
    ensures
        match (at, first_at(s@, part@, from as int)) {
            (Some(a), Some(b)) => a == b && from <= a && a + part@.len() <= s@.len(),
            (None, None) => true,
            _ => false,
        },
{
    let mut i: usize = from;
    loop
        invariant
            from <= i,
            i <= s@.len() || i == from,
            first_at(s@, part@, from as int) == first_at(s@, part@, i as int),
        decreases s@.len() + 1 - i,
    {
        if i > s.len() || part.len() > s.len() - i {
            return None;
        }
        if chars_eq(&s[i..i + part.len()], part) {
            return Some(i);
        }
        if i == s.len() {
            assert(first_at(s@, part@, i + 1) is None);
            return None;
        }
        i += 1;
    }
}

/// The text in an option.
pub open spec fn text_in(s: Option<String>) -> Option<Seq<char>> {
    match s {
        Some(x) => Some(x@),
        None => None,
    }
}

/// The texts of strings.
pub open spec fn texts(strings: Seq<String>) -> Seq<Seq<char>> {
    strings.map_values(|s: String| s@)
}

/// Copies strings.
pub fn copy_texts(strings: &[String]) -> (out: Vec<String>)
    ensures
        texts(out@) == texts(strings@),
{
    let mut out: Vec<String> = Vec::new();
    let mut i: usize = 0;
    while i < strings.len()
        invariant
            i <= strings@.len(),
            out@.len() == i,
            forall|j: int| 0 <= j < i ==> out@[j]@ == strings@[j]@,
        decreases strings@.len() - i,
    {
        out.push(strings[i].clone());
        i += 1;
    }
    assert(texts(out@) =~= texts(strings@));
    out
}

/// The strings with a separator between them.
pub open spec fn joined_text(parts: Seq<Seq<char>>, sep: Seq<char>) -> Seq<char>
    decreases parts.len(),
{
    if parts.len() == 0 {
        Seq::empty()
    } else if parts.len() == 1 {
        parts[0]
    } else {
        joined_text(parts.drop_last(), sep) + sep + parts.last()
    }
}

/// Joins strings with a separator between them.
pub fn join_text(parts: &[String], sep: &str) -> (out: String)
    ensures
        out@ == joined_text(texts(parts@), sep@),
{
    let ghost all = texts(parts@);
    let mut out: String = String::new();
    let mut i: usize = 0;
    while i < parts.len()
        invariant
            i <= parts@.len(),
            all == texts(parts@),
            out@ == joined_text(all.take(i as int), sep@),
        decreases parts@.len() - i,
    {
        if i > 0 {
            out.append(sep);
        }
        out.append(&parts[i]);
        proof {
            let now = all.take(i + 1);
            assert(now.drop_last() =~= all.take(i as int));
            assert(now.last() == parts@[i as int]@);
            assert(out@ =~= joined_text(now, sep@));
        }
        i += 1;
    }
    assert(all.take(i as int) =~= all);
    out
}

} // verus!
