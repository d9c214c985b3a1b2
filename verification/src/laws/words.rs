//! Words whose letters may differ in case, and numbers in texts.

use crate::text::{
    dec_text, digit_char, digits_value, first_at, has_part, hex_byte_text, hex_number, hex_text,
    hex_value, is_dec_digit, lower_char, lower_text, parsed_number,
};
use vstd::prelude::*;

verus! {

/// Two letters are the same but for their case.
pub open spec fn same_letter(a: char, b: char) -> bool {
    ||| a == b
    ||| 'A' <= a && a <= 'Z' && a as int + 32 == b as int
    ||| 'A' <= b && b <= 'Z' && b as int + 32 == a as int
}

/// Two words are the same but for the case of their letters.
pub open spec fn same_word(a: Seq<char>, b: Seq<char>) -> bool {
    a.len() == b.len() && forall|i: int| 0 <= i < a.len() ==> same_letter(#[trigger] a[i], b[i])
}

proof fn lower_letters(a: char, b: char)
    ensures
        lower_char(a) == lower_char(b) <==> same_letter(a, b),
{
}

/// Lower case tells no more and no less than what a word is but for the case of its letters.
pub proof fn case_does_not_count(a: Seq<char>, b: Seq<char>)
    ensures
        lower_text(a) == lower_text(b) <==> same_word(a, b),
{
    let x = lower_text(a);
    let y = lower_text(b);
    assert(x.len() == a.len() && y.len() == b.len());
    if x == y {
        assert forall|i: int| 0 <= i < a.len() implies same_letter(#[trigger] a[i], b[i]) by {
            assert(x[i] == y[i]);
            assert(x[i] == lower_char(a[i]) && y[i] == lower_char(b[i]));
            lower_letters(a[i], b[i]);
        }
    }
    if same_word(a, b) {
        assert forall|i: int| 0 <= i < x.len() implies x[i] == y[i] by {
            lower_letters(a[i], b[i]);
        }
        assert(x =~= y);
    }
}

/// A word that is in lower case already stays as it is.
pub proof fn lower_words_stay(s: Seq<char>)
    requires
        forall|i: int| 0 <= i < s.len() ==> !('A' <= #[trigger] s[i] && s[i] <= 'Z'),
    ensures
        lower_text(s) == s,
{
    assert(lower_text(s) =~= s);
}

/// What digits are worth: each place counts ten times the one behind it.
pub proof fn digits_count(s: Seq<char>)
    ensures
        s.len() == 0 ==> digits_value(s) == 0,
        s.len() == 1 && is_dec_digit(s[0]) ==> digits_value(s) == s[0] as int - '0' as int,
        s.len() > 1 && is_dec_digit(s.last()) ==> digits_value(s) == 10 * digits_value(
            s.drop_last(),
        ) + (s.last() as int - '0' as int),
        forall|c: char| #[trigger] is_dec_digit(c) <==> '0' <= c && c <= '9',
{
    reveal_with_fuel(digits_value, 2);
}

/// A number is written with its digits, and read back from them.
pub proof fn numbers_are_read_back(n: nat)
    ensures
        digits_value(dec_text(n)) == n,
        dec_text(n).len() > 0,
        forall|i: int|
            0 <= i < dec_text(n).len() ==> '0' <= #[trigger] dec_text(n)[i] && dec_text(n)[i]
                <= '9',
        n > 0 ==> dec_text(n)[0] != '0',
    decreases n,
{
    let t = dec_text(n);
    if n >= 10 {
        numbers_are_read_back(n / 10);
        let front = dec_text(n / 10);
        assert(t.drop_last() =~= front);
        assert forall|i: int| 0 <= i < t.len() implies '0' <= #[trigger] t[i] && t[i] <= '9' by {
            if i < front.len() {
                assert(t[i] == front[i]);
            }
        }
        assert(t[0] == front[0]);
    } else {
        reveal_with_fuel(digits_value, 2);
    }
}

/// What stands behind a plus sign, if there is one.
pub open spec fn behind_plus(s: Seq<char>) -> Seq<char> {
    if s.len() > 0 && s[0] == '+' {
        s.skip(1)
    } else {
        s
    }
}

/// The text is of digits, and not empty.
pub open spec fn of_digits(d: Seq<char>) -> bool {
    d.len() > 0 && forall|i: int| 0 <= i < d.len() ==> '0' <= #[trigger] d[i] && d[i] <= '9'
}

/// A text is a number exactly where it has digits, with or without a plus sign before them, and
/// nothing else, and where they are worth no more than the limit.
pub proof fn numbers_are_digits(s: Seq<char>, max: nat)
    ensures
        parsed_number(s, max) == if of_digits(behind_plus(s)) && digits_value(behind_plus(s)) <= max {
            Some(digits_value(behind_plus(s)))
        } else {
            None
        },
{
    let d = behind_plus(s);
    assert(d == crate::text::unsigned_digits(s));
    if of_digits(d) {
        assert forall|i: int| 0 <= i < d.len() implies is_dec_digit(d[i]) by {
            assert('0' <= d[i] && d[i] <= '9');
        }
    } else if d.len() > 0 {
        let i = choose|i: int| 0 <= i < d.len() && !('0' <= #[trigger] d[i] && d[i] <= '9');
        assert(!is_dec_digit(d[i]));
    }
}

/// Hexadecimal digits: 0 to 9, and a to f in either case for 10 to 15.
pub proof fn hex_digits(c: char)
    ensures
        hex_value(c) == if '0' <= c && c <= '9' {
            Some((c as int - '0' as int) as nat)
        } else if 'a' <= c && c <= 'f' {
            Some((c as int - 'a' as int + 10) as nat)
        } else if 'A' <= c && c <= 'F' {
            Some((c as int - 'A' as int + 10) as nat)
        } else {
            None
        },
{
}

/// A number in hexadecimal digits of lower case is read back from them, and so is a byte from two.
pub proof fn hex_is_read_back(n: nat, b: u8)
    ensures
        hex_number(hex_text(n)) == Some(n),
        hex_number(hex_byte_text(b)) == Some(b as nat),
        hex_byte_text(b).len() == 2,
        forall|i: int|
            0 <= i < hex_text(n).len() ==> !('A' <= #[trigger] hex_text(n)[i] && hex_text(n)[i]
                <= 'F'),
    decreases n,
{
    let t = hex_text(n);
    reveal_with_fuel(hex_number, 3);
    let two = hex_byte_text(b);
    assert(two.drop_last() =~= seq![two[0]]);
    assert(two.drop_last().drop_last() =~= Seq::empty());
    assert(hex_value(digit_char((b / 16) as nat)) == Some((b / 16) as nat));
    assert(hex_value(digit_char((b % 16) as nat)) == Some((b % 16) as nat));
    if n >= 16 {
        hex_is_read_back(n / 16, b);
        let front = hex_text(n / 16);
        assert(t.drop_last() =~= front);
        assert(hex_value(t.last()) == Some(n % 16));
        assert forall|i: int| 0 <= i < t.len() implies !('A' <= #[trigger] t[i] && t[i] <= 'F') by {
            if i < front.len() {
                assert(t[i] == front[i]);
            }
        }
    } else {
        assert(t.drop_last() =~= Seq::empty());
        assert(hex_value(t.last()) == Some(n));
    }
}

/// A part of a text is found at the first place where it stands, and not found where it stands
/// nowhere.
pub proof fn parts_are_found(s: Seq<char>, part: Seq<char>, from: int)
    requires
        0 <= from,
    ensures
        match first_at(s, part, from) {
            Some(i) => from <= i && i + part.len() <= s.len() && s.subrange(i, i + part.len())
                == part && forall|j: int|
                from <= j < i ==> #[trigger] s.subrange(j, j + part.len()) != part,
            None => forall|j: int|
                from <= j && j + part.len() <= s.len() ==> #[trigger] s.subrange(
                    j,
                    j + part.len(),
                ) != part,
        },
        has_part(s, part) <==> first_at(s, part, 0) is Some,
    decreases s.len() + 1 - from,
{
    if from + part.len() <= s.len() && s.subrange(from, from + part.len()) != part {
        parts_are_found(s, part, from + 1);
    }
    if from > 0 {
        parts_are_found_from_the_start(s, part, 0);
    } else {
        parts_are_found_from_the_start(s, part, 0);
    }
}

proof fn parts_are_found_from_the_start(s: Seq<char>, part: Seq<char>, from: int)
    requires
        0 <= from,
        forall|j: int| 0 <= j < from ==> #[trigger] s.subrange(j, j + part.len()) != part,
    ensures
        has_part(s, part) <==> first_at(s, part, from) is Some,
    decreases s.len() + 1 - from,
{
    if from + part.len() <= s.len() {
        if s.subrange(from, from + part.len()) != part {
            parts_are_found_from_the_start(s, part, from + 1);
        }
    }
}

} // verus!
