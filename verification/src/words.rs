//! Lines, and the words between white space.

use crate::encoding::{is_space, space, trim_start};
use crate::text::{find_text, first_at, text_of, texts};
use vstd::prelude::*;

verus! {

/// `s` behind its first word, which starts at once.
pub open spec fn behind_word(s: Seq<char>) -> Seq<char>
    decreases s.len(),
{
    if s.len() == 0 || is_space(s[0]) {
        s
    } else {
        behind_word(s.skip(1))
    }
}

/// The words of `s`.
pub open spec fn words(s: Seq<char>) -> Seq<Seq<char>>
    decreases s.len(),
    via words_end
{
    let t = trim_start(s);
    if t.len() == 0 {
        Seq::empty()
    } else {
        let rest = behind_word(t);
        seq![t.take(t.len() - rest.len())] + words(rest)
    }
}

#[via_fn]
proof fn words_end(s: Seq<char>) {
    let t = trim_start(s);
    trim_start_shorter(s);
    if t.len() > 0 {
        behind_word_shorter(t.skip(1));
    }
}

proof fn trim_start_shorter(s: Seq<char>)
    ensures
        trim_start(s).len() <= s.len(),
        trim_start(s).len() > 0 ==> !is_space(trim_start(s)[0]),
    decreases s.len(),
{
    if s.len() > 0 && is_space(s[0]) {
        trim_start_shorter(s.skip(1));
    }
}

proof fn behind_word_shorter(s: Seq<char>)
    ensures
        behind_word(s).len() <= s.len(),
    decreases s.len(),
{
    if s.len() > 0 && !is_space(s[0]) {
        behind_word_shorter(s.skip(1));
    }
}

/// `s` up to the end of its first line.
pub open spec fn first_line(s: Seq<char>) -> Seq<char> {
    match first_at(s, seq!['\n'], 0) {
        Some(i) => s.take(i),
        None => s,
    }
}

/// `s` behind its first line.
pub open spec fn behind_line(s: Seq<char>) -> Seq<char> {
    match first_at(s, seq!['\n'], 0) {
        Some(i) => s.skip(i + 1),
        None => Seq::empty(),
    }
}

proof fn found_within(s: Seq<char>, part: Seq<char>, from: int)
    requires
        0 <= from,
        first_at(s, part, from) is Some,
    ensures
        from <= first_at(s, part, from)->Some_0 <= s.len() - part.len(),
    decreases s.len() + 1 - from,
{
    if first_at(s, part, from) != Some(from) {
        found_within(s, part, from + 1);
    }
}

/// What follows a line is shorter than all that was there.
pub proof fn behind_line_shorter(s: Seq<char>)
    requires
        s.len() > 0,
    ensures
        behind_line(s).len() < s.len(),
{
    if first_at(s, seq!['\n'], 0) is Some {
        found_within(s, seq!['\n'], 0);
    }
}

fn skip_spaces(s: &[char], from: usize) -> (at: usize)
    requires
        from <= s@.len(),
    ensures
        from <= at <= s@.len(),
        s@.skip(at as int) == trim_start(s@.skip(from as int)),
{
    let mut at: usize = from;
    while at < s.len() && space(s[at])
        invariant
            from <= at <= s@.len(),
            trim_start(s@.skip(from as int)) == trim_start(s@.skip(at as int)),
        decreases s@.len() - at,
    {
        assert(s@.skip(at as int).skip(1) =~= s@.skip(at + 1));
        at += 1;
    }
    at
}

fn skip_word(s: &[char], from: usize) -> (at: usize)
    requires
        from <= s@.len(),
    ensures
        from <= at <= s@.len(),
        from < s@.len() && !is_space(s@[from as int]) ==> from < at,
        s@.skip(at as int) == behind_word(s@.skip(from as int)),
{
    let mut at: usize = from;
    while at < s.len() && !space(s[at])
        invariant
            from <= at <= s@.len(),
            behind_word(s@.skip(from as int)) == behind_word(s@.skip(at as int)),
        decreases s@.len() - at,
    {
        assert(s@.skip(at as int).skip(1) =~= s@.skip(at + 1));
        at += 1;
    }
    at
}

/// Splits a text into its words.
pub fn split_words(s: &[char]) -> (out: Vec<String>)
    ensures
        texts(out@) == words(s@),
{
    let mut out: Vec<String> = Vec::new();
    let mut at: usize = 0;
    assert(s@.skip(0) =~= s@);
    assert(texts(out@) + words(s@) =~= words(s@));
    loop
        invariant
            at <= s@.len(),
            texts(out@) + words(s@.skip(at as int)) == words(s@),
        decreases s@.len() - at,
    {
        let ghost rest = s@.skip(at as int);
        let from: usize = skip_spaces(s, at);
        proof {
            trim_start_shorter(rest);
            if from < s@.len() {
                assert(s@.skip(from as int)[0] == s@[from as int]);
            }
        }
        if from >= s.len() {
            assert(words(rest) =~= Seq::empty());
            assert(texts(out@) + words(rest) =~= texts(out@));
            return out;
        }
        let to: usize = skip_word(s, from);
        let ghost before = texts(out@);
        let word: String = text_of(s, from, to);
        let ghost t = s@.skip(from as int);
        assert(word@ =~= t.take(t.len() - s@.skip(to as int).len()));
        proof {
            behind_word_shorter(t);
            let found = t.take(t.len() - s@.skip(to as int).len());
            assert(words(rest) == seq![found] + words(s@.skip(to as int)));
        }
        let ghost w = word@;
        out.push(word);
        assert(texts(out@) =~= before.push(w));
        assert(before + (seq![w] + words(s@.skip(to as int))) =~= before.push(w) + words(
            s@.skip(to as int),
        ));
        at = to;
    }
}

/// Where the line that starts at `from` ends.
pub fn line_end(s: &[char], from: usize) -> (at: usize)
    requires
        from <= s@.len(),
    ensures
        from <= at <= s@.len(),
        s@.subrange(from as int, at as int) == first_line(s@.skip(from as int)),
        if at < s@.len() {
            behind_line(s@.skip(from as int)) == s@.skip(at + 1)
        } else {
            behind_line(s@.skip(from as int)).len() == 0
        },
{
    let newline: [char; 1] = ['\n'];
    assert(newline@ =~= seq!['\n']);
    let rest: &[char] = &s[from..s.len()];
    assert(rest@ =~= s@.skip(from as int));
    match find_text(rest, &newline, 0) {
        Some(i) => {
            assert(from + i <= s.len());
            assert(s@.subrange(from as int, from + i) =~= rest@.take(i as int));
            assert(rest@.skip(i + 1) =~= s@.skip(from + i + 1));
            from + i
        },
        None => {
            assert(s@.subrange(from as int, s@.len() as int) =~= rest@);
            s.len()
        },
    }
}

} // verus!
