//! Addresses read from their text.

use crate::net::{
    compressed_text, groups_text, is_ip_text, longest_run_at, v4_mapped, v4_text, v6_groups, zero_run,
    IpAddr,
};
use crate::text::{
    chars_of, dec_text, digits_value, find_text, first_at, hex_number, hex_text, hex_value,
    is_dec_digit, parse_hex32, parse_number, parsed_hex32, parsed_number, texts, unsigned_digits,
};
use crate::wire::byte_range;
use vstd::prelude::*;

verus! {

/// The parts of `s` between the separators.
pub open spec fn split_on(s: Seq<char>, sep: char) -> Seq<Seq<char>>
    decreases s.len(),
{
    if s.len() == 0 {
        seq![Seq::empty()]
    } else {
        let before = split_on(s.drop_last(), sep);
        if s.last() == sep {
            before.push(Seq::empty())
        } else {
            before.drop_last().push(before.last().push(s.last()))
        }
    }
}

/// There is always a part.
proof fn split_has_part(s: Seq<char>, sep: char)
    ensures
        split_on(s, sep).len() > 0,
    decreases s.len(),
{
    if s.len() > 0 {
        split_has_part(s.drop_last(), sep);
    }
}

/// Splits a text at a separator.
pub fn split_text(s: &[char], sep: char) -> (out: Vec<String>)
    ensures
        texts(out@) == split_on(s@, sep),
{
    let mut out: Vec<String> = Vec::new();
    let mut last: String = String::new();
    let mut i: usize = 0;
    assert(last@ =~= Seq::empty());
    assert(s@.take(0) =~= Seq::empty());
    assert(texts(out@).push(last@) =~= seq![Seq::<char>::empty()]);
    while i < s.len()
        invariant
            i <= s@.len(),
            texts(out@).push(last@) == split_on(s@.take(i as int), sep),
        decreases s@.len() - i,
    {
        let ghost now = s@.take(i + 1);
        let ghost before = split_on(s@.take(i as int), sep);
        assert(now.drop_last() =~= s@.take(i as int));
        assert(now.last() == s@[i as int]);
        assert(before.last() == last@);
        assert(before.drop_last() =~= texts(out@));
        if s[i] == sep {
            let ghost shown = texts(out@);
            let ghost word = last@;
            out.push(last);
            last = String::new();
            assert(last@ =~= Seq::empty());
            assert(texts(out@) =~= shown.push(word));
        } else {
            last.push(s[i]);
        }
        i += 1;
    }
    assert(s@.take(i as int) =~= s@);
    let ghost shown = texts(out@);
    let ghost word = last@;
    out.push(last);
    assert(texts(out@) =~= shown.push(word));
    out
}

/// The number of a dotted part: up to three digits, at most 255, without a zero in front.
pub open spec fn octet_of(s: Seq<char>) -> Option<nat> {
    if 1 <= s.len() <= 3 && is_dec_digit(s[0]) && (s[0] != '0' || s.len() == 1) {
        parsed_number(s, 255)
    } else {
        None
    }
}

/// The IPv4 address that `s` writes.
pub open spec fn v4_of(s: Seq<char>) -> Option<u32> {
    let parts = split_on(s, '.');
    if parts.len() != 4 {
        None
    } else {
        match (octet_of(parts[0]), octet_of(parts[1]), octet_of(parts[2]), octet_of(parts[3])) {
            (Some(a), Some(b), Some(c), Some(d)) => Some(
                (a * 16777216 + b * 65536 + c * 256 + d) as u32,
            ),
            _ => None,
        }
    }
}

fn read_octet(s: &str) -> (n: Option<u32>)
    ensures
        match (n, octet_of(s@)) {
            (Some(a), Some(b)) => a as nat == b && a <= 255,
            (None, None) => true,
            _ => false,
        },
{
    let len: usize = s.unicode_len();
    if len < 1 || len > 3 {
        return None;
    }
    let first: char = s.get_char(0);
    if !('0' <= first && first <= '9') || (first == '0' && len > 1) {
        return None;
    }
    match parse_number(s, 255) {
        Some(n) => Some(n as u32),
        None => None,
    }
}

/// Reads an IPv4 address.
pub fn parse_v4(s: &[char]) -> (ip: Option<u32>)
    ensures
        ip == v4_of(s@),
{
    let parts: Vec<String> = split_text(s, '.');
    let ghost shown = split_on(s@, '.');
    if parts.len() != 4 {
        return None;
    }
    assert(shown[0] == parts@[0]@ && shown[1] == parts@[1]@ && shown[2] == parts@[2]@ && shown[3]
        == parts@[3]@);
    match (
        read_octet(&parts[0]),
        read_octet(&parts[1]),
        read_octet(&parts[2]),
        read_octet(&parts[3]),
    ) {
        (Some(a), Some(b), Some(c), Some(d)) => Some(a * 16777216 + b * 65536 + c * 256 + d),
        _ => None,
    }
}

/// The number of a group: one to four hexadecimal digits.
pub open spec fn group_of(s: Seq<char>) -> Option<nat> {
    if 1 <= s.len() <= 4 && s[0] != '+' {
        parsed_hex32(s)
    } else {
        None
    }
}

/// The groups that the parts write. Where `v4_end` is set, the last part may be an IPv4 address,
/// which makes two groups.
pub open spec fn groups_of(parts: Seq<Seq<char>>, v4_end: bool) -> Option<Seq<nat>>
    decreases parts.len(),
{
    if parts.len() == 0 {
        Some(Seq::empty())
    } else {
        match groups_of(parts.drop_last(), false) {
            None => None,
            Some(before) => match group_of(parts.last()) {
                Some(g) => Some(before.push(g)),
                None => match v4_of(parts.last()) {
                    Some(v) if v4_end => Some(
                        before.push((v / 65536) as nat).push((v % 65536) as nat),
                    ),
                    _ => None,
                },
            },
        }
    }
}

/// The groups of one side of an address; an empty side has none.
pub open spec fn side_of(s: Seq<char>, v4_end: bool) -> Option<Seq<nat>> {
    if s.len() == 0 {
        Some(Seq::empty())
    } else {
        groups_of(split_on(s, ':'), v4_end)
    }
}

/// So many groups of zero.
pub open spec fn zero_groups(n: int) -> Seq<nat> {
    Seq::new(
        if n > 0 {
            n as nat
        } else {
            0
        },
        |i: int| 0nat,
    )
}

/// The eight groups that `s` writes. Two colons stand for at least one group of zero.
pub open spec fn v6_groups_of(s: Seq<char>) -> Option<Seq<nat>> {
    match first_at(s, seq![':', ':'], 0) {
        Some(i) => match (side_of(s.take(i), false), side_of(s.skip(i + 2), true)) {
            (Some(head), Some(tail)) => if head.len() + tail.len() <= 7 {
                Some(head + zero_groups(8 - head.len() - tail.len()) + tail)
            } else {
                None
            },
            _ => None,
        },
        None => match side_of(s, true) {
            Some(groups) if groups.len() == 8 => Some(groups),
            _ => None,
        },
    }
}

/// The number that groups spell.
pub open spec fn groups_value(groups: Seq<nat>) -> nat
    decreases groups.len(),
{
    if groups.len() == 0 {
        0
    } else {
        groups_value(groups.drop_last()) * 65536 + groups.last()
    }
}

/// The address that `s` writes.
pub open spec fn ip_of(s: Seq<char>) -> Option<IpAddr> {
    match v4_of(s) {
        Some(v) => Some(IpAddr::V4(v)),
        None => match v6_groups_of(s) {
            Some(groups) => Some(IpAddr::V6(groups_value(groups) as u128)),
            None => None,
        },
    }
}

/// Groups as plain numbers.
pub open spec fn plain_groups(groups: Seq<u16>) -> Seq<nat> {
    groups.map_values(|g: u16| g as nat)
}

proof fn hex_small(s: Seq<char>, n: nat)
    requires
        s.len() <= 4,
        hex_number(s) == Some(n),
    ensures
        n < 65536,
{
    reveal_with_fuel(hex_number, 5);
    if s.len() > 0 {
        let a = s.drop_last();
        if a.len() > 0 {
            let b = a.drop_last();
            if b.len() > 0 {
                let c = b.drop_last();
                if c.len() > 0 {
                    assert(c.drop_last().len() == 0);
                }
            }
        }
    }
}

fn read_group(s: &str) -> (g: Option<u16>)
    ensures
        match (g, group_of(s@)) {
            (Some(a), Some(b)) => a as nat == b,
            (None, None) => true,
            _ => false,
        },
{
    let len: usize = s.unicode_len();
    if len < 1 || len > 4 {
        return None;
    }
    if s.get_char(0) == '+' {
        return None;
    }
    match parse_hex32(s) {
        Some(n) => {
            proof {
                hex_small(s@, n as nat);
            }
            Some(n as u16)
        },
        None => None,
    }
}

fn read_side(s: &[char], v4_end: bool) -> (groups: Option<Vec<u16>>)
    ensures
        match (groups, side_of(s@, v4_end)) {
            (Some(a), Some(b)) => plain_groups(a@) == b,
            (None, None) => true,
            _ => false,
        },
{
    let mut out: Vec<u16> = Vec::new();
    assert(plain_groups(out@) =~= Seq::empty());
    if s.len() == 0 {
        return Some(out);
    }
    let parts: Vec<String> = split_text(s, ':');
    let ghost shown = split_on(s@, ':');
    proof {
        split_has_part(s@, ':');
    }
    let mut i: usize = 0;
    assert(shown.take(0) =~= Seq::empty());
    while i < parts.len() - 1
        invariant
            parts@.len() > 0,
            i <= parts@.len() - 1,
            shown == texts(parts@),
            shown == split_on(s@, ':'),
            s@.len() > 0,
            groups_of(shown.take(i as int), false) == Some(plain_groups(out@)),
        decreases parts@.len() - i,
    {
        assert(shown.take(i + 1).drop_last() =~= shown.take(i as int));
        assert(shown.take(i + 1).last() == parts@[i as int]@);
        match read_group(&parts[i]) {
            Some(g) => {
                let ghost before = plain_groups(out@);
                out.push(g);
                assert(plain_groups(out@) =~= before.push(g as nat));
            },
            None => {
                proof {
                    assert(groups_of(shown.take(i + 1), false) is None);
                    bad_part_stays(shown, i + 1, v4_end);
                }
                return None;
            },
        }
        i += 1;
    }
    assert(shown.drop_last() =~= shown.take(i as int));
    assert(shown.last() == parts@[i as int]@);
    match read_group(&parts[i]) {
        Some(g) => {
            let ghost before = plain_groups(out@);
            out.push(g);
            assert(plain_groups(out@) =~= before.push(g as nat));
            Some(out)
        },
        None => {
            if !v4_end {
                return None;
            }
            let chars: Vec<char> = chars_of(&parts[i]);
            match parse_v4(&chars) {
                Some(v) => {
                    let ghost before = plain_groups(out@);
                    out.push((v / 65536) as u16);
                    out.push((v % 65536) as u16);
                    assert(plain_groups(out@) =~= before.push((v / 65536) as nat).push(
                        (v % 65536) as nat,
                    ));
                    Some(out)
                },
                None => None,
            }
        },
    }
}

proof fn bad_part_stays(parts: Seq<Seq<char>>, n: int, v4_end: bool)
    requires
        0 < n < parts.len(),
        groups_of(parts.take(n), false) is None,
    ensures
        groups_of(parts, v4_end) is None,
    decreases parts.len() - n,
{
    if n == parts.len() - 1 {
        assert(parts.drop_last() =~= parts.take(n));
    } else {
        assert(parts.take(n + 1).drop_last() =~= parts.take(n));
        bad_part_stays(parts, n + 1, v4_end);
    }
}

fn read_v6_groups(s: &[char]) -> (groups: Option<Vec<u16>>)
    ensures
        match (groups, v6_groups_of(s@)) {
            (Some(a), Some(b)) => plain_groups(a@) == b && a@.len() == 8,
            (None, None) => true,
            _ => false,
        },
{
    let gap: [char; 2] = [':', ':'];
    assert(gap@ =~= seq![':', ':']);
    match find_text(s, &gap, 0) {
        Some(i) => {
            let left: &[char] = &s[0..i];
            assert(left@ =~= s@.take(i as int));
            assert(i + 2 <= s.len());
            let right: &[char] = &s[i + 2..s.len()];
            assert(right@ =~= s@.skip(i + 2));
            let mut head: Vec<u16> = match read_side(left, false) {
                Some(h) => h,
                None => {
                    return None;
                },
            };
            let mut tail: Vec<u16> = match read_side(right, true) {
                Some(t) => t,
                None => {
                    return None;
                },
            };
            if head.len() > 7 || tail.len() > 7 - head.len() {
                return None;
            }
            let ghost h = plain_groups(head@);
            let ghost t = plain_groups(tail@);
            let ghost n = h.len();
            while head.len() < 8 - tail.len()
                invariant
                    n <= head@.len() <= 8 - tail@.len(),
                    tail@.len() <= 7,
                    plain_groups(head@) == h + zero_groups(head@.len() - n),
                    h.len() == n,
                decreases 8 - head@.len(),
            {
                let ghost before = plain_groups(head@);
                head.push(0);
                assert(plain_groups(head@) =~= before.push(0));
                assert(plain_groups(head@) =~= h + zero_groups(head@.len() - n));
            }
            let ghost front = plain_groups(head@);
            head.append(&mut tail);
            assert(plain_groups(head@) =~= front + t);
            Some(head)
        },
        None => match read_side(s, true) {
            Some(groups) => if groups.len() == 8 {
                Some(groups)
            } else {
                None
            },
            None => None,
        },
    }
}

fn join_groups(groups: &[u16]) -> (v: u128)
    requires
        groups@.len() == 8,
    ensures
        v as nat == groups_value(plain_groups(groups@)),
{
    let mut v: u128 = 0;
    let mut i: usize = 0;
    let ghost all = plain_groups(groups@);
    assert(byte_range(16) == u128::MAX + 1) by {
        reveal_with_fuel(byte_range, 17);
    }
    while i < 8
        invariant
            i <= 8,
            groups@.len() == 8,
            all == plain_groups(groups@),
            v as nat == groups_value(all.take(i as int)),
            v < byte_range((2 * i) as nat),
            byte_range(16) == u128::MAX + 1,
        decreases 8 - i,
    {
        assert(all.take(i + 1).drop_last() =~= all.take(i as int));
        assert(all.take(i + 1).last() == groups@[i as int] as nat);
        proof {
            let n = (2 * i) as nat;
            assert(byte_range(n + 2) == 65536 * byte_range(n)) by {
                reveal_with_fuel(byte_range, 3);
            }
            ranges_grow(n + 2, 16);
        }
        v = v * 65536 + groups[i] as u128;
        i += 1;
    }
    assert(all.take(8) =~= all);
    v
}

proof fn ranges_grow(m: nat, n: nat)
    requires
        m <= n,
    ensures
        byte_range(m) <= byte_range(n),
    decreases n - m,
{
    if m < n {
        ranges_grow(m + 1, n);
    }
}

/// Reads an address.
pub fn parse_ip(s: &str) -> (ip: Option<IpAddr>)
    ensures
        ip == ip_of(s@),
{
    let chars: Vec<char> = chars_of(s);
    if let Some(v) = parse_v4(&chars) {
        return Some(IpAddr::V4(v));
    }
    match read_v6_groups(&chars) {
        Some(groups) => Some(IpAddr::V6(join_groups(&groups))),
        None => None,
    }
}

/// Whether a separator occurs nowhere in `s`.
pub open spec fn free_of(s: Seq<char>, sep: char) -> bool {
    forall|i: int| 0 <= i < s.len() ==> s[i] != sep
}

proof fn split_behind(a: Seq<char>, b: Seq<char>, sep: char)
    requires
        free_of(b, sep),
    ensures
        split_on(a.push(sep) + b, sep) == split_on(a, sep).push(b),
    decreases b.len(),
{
    let s = a.push(sep) + b;
    if b.len() == 0 {
        assert(s =~= a.push(sep));
        assert(s.drop_last() =~= a);
        assert(b =~= Seq::empty());
    } else {
        split_behind(a, b.drop_last(), sep);
        assert(s.drop_last() =~= a.push(sep) + b.drop_last());
        let before = split_on(a, sep).push(b.drop_last());
        assert(before.drop_last() =~= split_on(a, sep));
        assert(b.drop_last().push(b.last()) =~= b);
    }
}

proof fn split_whole(b: Seq<char>, sep: char)
    requires
        free_of(b, sep),
    ensures
        split_on(b, sep) == seq![b],
    decreases b.len(),
{
    if b.len() == 0 {
        assert(b =~= Seq::empty());
    } else {
        let front = b.drop_last();
        split_whole(front, sep);
        assert(front.push(b.last()) =~= b);
        assert(b.last() != sep);
        assert(seq![front].drop_last().push(b) =~= seq![b]);
    }
}

proof fn dec_reads_back(n: nat)
    ensures
        dec_text(n).len() > 0,
        forall|i: int| 0 <= i < dec_text(n).len() ==> is_dec_digit(#[trigger] dec_text(n)[i]),
        digits_value(dec_text(n)) == n,
        n > 0 ==> dec_text(n)[0] != '0',
    decreases n,
{
    if n >= 10 {
        dec_reads_back(n / 10);
        assert(dec_text(n).drop_last() =~= dec_text(n / 10));
    } else {
        assert(dec_text(n).drop_last() =~= Seq::empty());
        reveal_with_fuel(digits_value, 2);
    }
}

proof fn octet_reads_back(n: nat)
    requires
        n <= 255,
    ensures
        octet_of(dec_text(n)) == Some(n),
        free_of(dec_text(n), '.'),
{
    dec_reads_back(n);
    reveal_with_fuel(dec_text, 4);
    assert(dec_text(n).len() <= 3);
    assert(unsigned_digits(dec_text(n)) == dec_text(n));
}

proof fn split_four(a: Seq<char>, b: Seq<char>, c: Seq<char>, d: Seq<char>, sep: char)
    requires
        free_of(a, sep),
        free_of(b, sep),
        free_of(c, sep),
        free_of(d, sep),
    ensures
        split_on(a.push(sep) + b.push(sep) + c.push(sep) + d, sep) == seq![a, b, c, d],
{
    split_whole(a, sep);
    split_behind(a, b, sep);
    split_behind(a.push(sep) + b, c, sep);
    split_behind((a.push(sep) + b).push(sep) + c, d, sep);
    assert(a.push(sep) + b.push(sep) + c.push(sep) + d =~= ((a.push(sep) + b).push(sep) + c).push(
        sep,
    ) + d);
    assert(seq![a].push(b).push(c).push(d) =~= seq![a, b, c, d]);
}

proof fn quad_reads_back(a: nat, b: nat, c: nat, d: nat)
    requires
        a <= 255,
        b <= 255,
        c <= 255,
        d <= 255,
    ensures
        v4_of(
            dec_text(a).push('.') + dec_text(b).push('.') + dec_text(c).push('.') + dec_text(d),
        ) == Some((a * 16777216 + b * 65536 + c * 256 + d) as u32),
{
    octet_reads_back(a);
    octet_reads_back(b);
    octet_reads_back(c);
    octet_reads_back(d);
    split_four(dec_text(a), dec_text(b), dec_text(c), dec_text(d), '.');
}

proof fn quad_makes_all(v: u32)
    ensures
        (v / 16777216) * 16777216 + (v / 65536 % 256) * 65536 + (v / 256 % 256) * 256 + (v % 256)
            == v,
        v / 16777216 <= 255,
{
}

/// An IPv4 address is read back from its text.
pub proof fn v4_reads_back(v: u32)
    ensures
        v4_of(v4_text(v)) == Some(v),
        ip_of(v4_text(v)) == Some(IpAddr::V4(v)),
{
    quad_makes_all(v);
    quad_reads_back(
        (v / 16777216) as nat,
        (v / 65536 % 256) as nat,
        (v / 256 % 256) as nat,
        (v % 256) as nat,
    );
}

proof fn hex_reads_back(n: nat)
    ensures
        hex_text(n).len() > 0,
        hex_number(hex_text(n)) == Some(n),
        forall|i: int| 0 <= i < hex_text(n).len() ==> hex_value(#[trigger] hex_text(n)[i]) is Some,
    decreases n,
{
    if n >= 16 {
        hex_reads_back(n / 16);
        assert(hex_text(n).drop_last() =~= hex_text(n / 16));
    } else {
        assert(hex_text(n).drop_last() =~= Seq::empty());
        reveal_with_fuel(hex_number, 2);
    }
}

proof fn group_reads_back(n: nat)
    requires
        n < 65536,
    ensures
        group_of(hex_text(n)) == Some(n),
        free_of(hex_text(n), ':'),
        hex_text(n).len() > 0,
{
    hex_reads_back(n);
    reveal_with_fuel(hex_text, 5);
    assert(hex_text(n).len() <= 4);
    assert(hex_value('+') is None && hex_value(':') is None);
    assert(hex_value(hex_text(n)[0]) is Some);
    assert(unsigned_digits(hex_text(n)) == hex_text(n));
}

/// The texts of the groups from `from` to `to`.
spec fn group_texts(g: Seq<nat>, from: int, to: int) -> Seq<Seq<char>> {
    g.subrange(from, to).map_values(|n: nat| hex_text(n))
}

/// Whether no two colons follow each other in `t`, and none stands at its end.
spec fn no_gap(t: Seq<char>) -> bool {
    forall|i: int|
        0 <= i < t.len() && (#[trigger] t[i]) == ':' ==> i + 1 < t.len() && t[i + 1] != ':'
}

proof fn groups_text_parts(g: Seq<nat>, from: int, to: int)
    requires
        0 <= from < to <= g.len(),
        forall|i: int| 0 <= i < g.len() ==> g[i] < 65536,
    ensures
        groups_text(g, from, to).len() > 0,
        groups_text(g, from, to)[0] != ':',
        split_on(groups_text(g, from, to), ':') == group_texts(g, from, to),
        no_gap(groups_text(g, from, to)),
    decreases to - from,
{
    group_reads_back(g[to - 1]);
    let last = hex_text(g[to - 1]);
    if from + 1 == to {
        split_whole(last, ':');
        assert(group_texts(g, from, to) =~= seq![last]);
    } else {
        let before = groups_text(g, from, to - 1);
        groups_text_parts(g, from, to - 1);
        split_behind(before, last, ':');
        assert(group_texts(g, from, to) =~= group_texts(g, from, to - 1).push(last));
        let t = before.push(':') + last;
        assert(t[0] == before[0]);
        assert forall|i: int| 0 <= i < t.len() && (#[trigger] t[i]) == ':' implies i + 1 < t.len()
            && t[i + 1] != ':' by {
            if i < before.len() {
                assert(t[i] == before[i]);
                assert(t[i + 1] == before[i + 1]);
            } else if i == before.len() {
                assert(t[i + 1] == last[0]);
            } else {
                assert(t[i] == last[i - before.len() - 1]);
            }
        }
    }
}

proof fn groups_of_texts(g: Seq<nat>, from: int, to: int, v4_end: bool)
    requires
        0 <= from <= to <= g.len(),
        forall|i: int| 0 <= i < g.len() ==> g[i] < 65536,
    ensures
        groups_of(group_texts(g, from, to), v4_end) == Some(g.subrange(from, to)),
    decreases to - from,
{
    let parts = group_texts(g, from, to);
    if from < to {
        group_reads_back(g[to - 1]);
        groups_of_texts(g, from, to - 1, false);
        assert(parts.drop_last() =~= group_texts(g, from, to - 1));
        assert(parts.last() == hex_text(g[to - 1]));
        assert(g.subrange(from, to) =~= g.subrange(from, to - 1).push(g[to - 1]));
    } else {
        assert(g.subrange(from, to) =~= Seq::empty());
    }
}

proof fn side_reads_back(g: Seq<nat>, from: int, to: int, v4_end: bool)
    requires
        0 <= from <= to <= g.len(),
        forall|i: int| 0 <= i < g.len() ==> g[i] < 65536,
    ensures
        side_of(groups_text(g, from, to), v4_end) == Some(g.subrange(from, to)),
{
    groups_of_texts(g, from, to, v4_end);
    if from < to {
        groups_text_parts(g, from, to);
    } else {
        assert(g.subrange(from, to) =~= Seq::empty());
    }
}

proof fn found_at(s: Seq<char>, part: Seq<char>, from: int, n: int)
    requires
        0 <= from <= n,
        n + part.len() <= s.len(),
        s.subrange(n, n + part.len()) == part,
        forall|i: int| from <= i < n ==> #[trigger] s.subrange(i, i + part.len()) != part,
    ensures
        first_at(s, part, from) == Some(n),
    decreases n - from,
{
    if from < n {
        assert(s.subrange(from, from + part.len()) != part);
        found_at(s, part, from + 1, n);
    }
}

proof fn not_found(s: Seq<char>, part: Seq<char>, from: int)
    requires
        0 <= from,
        forall|i: int|
            from <= i && i + part.len() <= s.len() ==> #[trigger] s.subrange(i, i + part.len())
                != part,
    ensures
        first_at(s, part, from) is None,
    decreases s.len() + 1 - from,
{
    if from + part.len() <= s.len() {
        assert(s.subrange(from, from + part.len()) != part);
        not_found(s, part, from + 1);
    }
}

proof fn gap_found(head: Seq<char>, tail: Seq<char>)
    requires
        no_gap(head),
    ensures
        first_at(head.push(':').push(':') + tail, seq![':', ':'], 0) == Some(head.len() as int),
        (head.push(':').push(':') + tail).take(head.len() as int) == head,
        (head.push(':').push(':') + tail).skip(head.len() as int + 2) == tail,
{
    let s = head.push(':').push(':') + tail;
    let gap = seq![':', ':'];
    let n = head.len() as int;
    assert(s.subrange(n, n + 2) =~= gap);
    assert forall|i: int| 0 <= i < n implies #[trigger] s.subrange(i, i + 2) != gap by {
        assert(s.subrange(i, i + 2)[0] == head[i]);
        if head[i] == ':' {
            assert(s.subrange(i, i + 2)[1] == head[i + 1]);
        }
        assert(gap[0] == ':' && gap[1] == ':');
    }
    found_at(s, gap, 0, n);
    assert(s.take(n) =~= head);
    assert(s.skip(n + 2) =~= tail);
}

proof fn no_gap_found(s: Seq<char>)
    requires
        no_gap(s),
    ensures
        first_at(s, seq![':', ':'], 0) is None,
{
    let gap = seq![':', ':'];
    assert forall|i: int| 0 <= i && i + 2 <= s.len() implies #[trigger] s.subrange(i, i + 2)
        != gap by {
        assert(s.subrange(i, i + 2)[0] == s[i]);
        assert(s.subrange(i, i + 2)[1] == s[i + 1]);
        assert(gap[0] == ':' && gap[1] == ':');
    }
    not_found(s, gap, 0);
}

proof fn run_is_zero(g: Seq<nat>, s: int)
    requires
        0 <= s,
    ensures
        s + zero_run(g, s) <= g.len() || zero_run(g, s) == 0,
        forall|j: int| s <= j < s + zero_run(g, s) ==> g[j] == 0,
    decreases g.len() - s,
{
    if s < g.len() && g[s] == 0 {
        run_is_zero(g, s + 1);
    }
}

/// Groups are read back from their text, shortened or not.
proof fn groups_read_back(g: Seq<nat>, s: int)
    requires
        g.len() == 8,
        0 <= s < 8,
        forall|i: int| 0 <= i < g.len() ==> g[i] < 65536,
    ensures
        v6_groups_of(compressed_text(g, s)) == Some(g),
        exists|i: int| 0 <= i < compressed_text(g, s).len() && compressed_text(g, s)[i] == ':',
{
    let r = zero_run(g, s) as int;
    let t = compressed_text(g, s);
    run_is_zero(g, s);
    if r > 1 {
        let head = groups_text(g, 0, s);
        let tail = groups_text(g, s + r, 8);
        if s > 0 {
            groups_text_parts(g, 0, s);
        }
        gap_found(head, tail);
        side_reads_back(g, 0, s, false);
        side_reads_back(g, s + r, 8, true);
        assert(g.subrange(0, s) + zero_groups(r) + g.subrange(s + r, 8) =~= g);
        assert(t[head.len() as int] == ':');
    } else {
        groups_text_parts(g, 0, 8);
        no_gap_found(t);
        side_reads_back(g, 0, 8, true);
        assert(g.subrange(0, 8) =~= g);
        let before = groups_text(g, 0, 7);
        assert(t[before.len() as int] == ':');
    }
}

proof fn split_keeps(s: Seq<char>, sep: char, i: int)
    requires
        0 <= i < s.len(),
        s[i] != sep,
    ensures
        exists|k: int, m: int|
            0 <= k < split_on(s, sep).len() && 0 <= m < split_on(s, sep)[k].len() && (
            #[trigger] split_on(s, sep)[k][m]) == s[i],
    decreases s.len(),
{
    let front = s.drop_last();
    let before = split_on(front, sep);
    let all = split_on(s, sep);
    split_has_part(front, sep);
    if i == s.len() - 1 {
        let k = before.len() - 1;
        let m = before.last().len() as int;
        assert(all[k][m] == s[i]);
    } else {
        split_keeps(front, sep, i);
        let (k, m) = choose|k: int, m: int|
            0 <= k < before.len() && 0 <= m < before[k].len() && (#[trigger] before[k][m])
                == front[i];
        assert(all[k][m] == s[i]);
    }
}

proof fn octet_is_digits(s: Seq<char>, m: int)
    requires
        octet_of(s) is Some,
        0 <= m < s.len(),
    ensures
        is_dec_digit(s[m]),
{
    assert(unsigned_digits(s) == s);
}

proof fn colon_is_no_v4(s: Seq<char>, i: int)
    requires
        0 <= i < s.len(),
        s[i] == ':',
    ensures
        v4_of(s) is None,
{
    if v4_of(s) is Some {
        split_keeps(s, '.', i);
        let parts = split_on(s, '.');
        let (k, m) = choose|k: int, m: int|
            0 <= k < parts.len() && 0 <= m < parts[k].len() && (#[trigger] parts[k][m]) == s[i];
        assert(k == 0 || k == 1 || k == 2 || k == 3);
        octet_is_digits(parts[k], m);
    }
}

proof fn v6_value(v: u128)
    ensures
        groups_value(v6_groups(v)) == v,
        forall|i: int| 0 <= i < 8 ==> (#[trigger] v6_groups(v)[i]) < 65536,
{
    let g = v6_groups(v);
    let a = v / 0x1_0000;
    let b = v / 0x1_0000_0000;
    let c = v / 0x1_0000_0000_0000;
    let d = v / 0x1_0000_0000_0000_0000;
    let e = v / 0x1_0000_0000_0000_0000_0000;
    let f = v / 0x1_0000_0000_0000_0000_0000_0000;
    let h = v / 0x1_0000_0000_0000_0000_0000_0000_0000;
    assert(b == a / 65536 && c == b / 65536 && d == c / 65536 && e == d / 65536 && f == e / 65536
        && h == f / 65536);
    assert(h < 65536);
    let g0 = seq![g[0]];
    let g1 = g0.push(g[1]);
    let g2 = g1.push(g[2]);
    let g3 = g2.push(g[3]);
    let g4 = g3.push(g[4]);
    let g5 = g4.push(g[5]);
    let g6 = g5.push(g[6]);
    let g7 = g6.push(g[7]);
    assert(g7 =~= g);
    assert(g0.drop_last() =~= Seq::empty());
    assert(g1.drop_last() =~= g0 && g2.drop_last() =~= g1 && g3.drop_last() =~= g2
        && g4.drop_last() =~= g3 && g5.drop_last() =~= g4 && g6.drop_last() =~= g5
        && g7.drop_last() =~= g6);
    assert(groups_value(Seq::<nat>::empty()) == 0);
    assert(groups_value(g0) == h);
    assert(groups_value(g1) == f);
    assert(groups_value(g2) == e);
    assert(groups_value(g3) == d);
    assert(groups_value(g4) == c);
    assert(groups_value(g5) == b);
    assert(groups_value(g6) == a);
    assert(groups_value(g7) == v);
}

proof fn mapped_reads_back(v: u128)
    requires
        v4_mapped(v),
    ensures
        v6_groups_of(
            seq![':', ':', 'f', 'f', 'f', 'f', ':'] + v4_text((v % 0x1_0000_0000) as u32),
        ) == Some(v6_groups(v)),
{
    let low = (v % 0x1_0000_0000) as u32;
    let end = v4_text(low);
    let t = seq![':', ':', 'f', 'f', 'f', 'f', ':'] + end;
    let tail = seq!['f', 'f', 'f', 'f'].push(':') + end;
    let head = Seq::<char>::empty();
    assert(t =~= head.push(':').push(':') + tail);
    gap_found(head, tail);
    let word = seq!['f', 'f', 'f', 'f'];
    assert(free_of(word, ':'));
    v4_free_of_colon(low);
    split_whole(word, ':');
    split_behind(word, end, ':');
    let parts = seq![word, end];
    assert(seq![word].push(end) =~= parts);
    v4_reads_back(low);
    assert(group_of(end) is None);
    assert(group_of(word) == Some(0xffffnat)) by {
        reveal_with_fuel(hex_number, 5);
        let w3 = word.drop_last();
        let w2 = w3.drop_last();
        let w1 = w2.drop_last();
        assert(w1.drop_last().len() == 0);
        assert(unsigned_digits(word) == word);
    }
    assert(parts.drop_last() =~= seq![word]);
    assert(seq![word].drop_last() =~= Seq::empty());
    assert(groups_of(Seq::<Seq<char>>::empty(), false) == Some(Seq::<nat>::empty()));
    assert(groups_of(seq![word], false) == Some(Seq::<nat>::empty().push(0xffff)));
    let tail_groups = Seq::<nat>::empty().push(0xffff).push((low / 65536) as nat).push(
        (low % 65536) as nat,
    );
    assert(groups_of(parts, true) == Some(tail_groups));
    mapped_groups(v);
    assert(Seq::<nat>::empty() + zero_groups(5) + tail_groups =~= v6_groups(v));
}

proof fn mapped_groups(v: u128)
    requires
        v4_mapped(v),
    ensures
        v6_groups(v)[0] == 0,
        v6_groups(v)[1] == 0,
        v6_groups(v)[2] == 0,
        v6_groups(v)[3] == 0,
        v6_groups(v)[4] == 0,
        v6_groups(v)[5] == 0xffff,
        v6_groups(v)[6] == (v % 0x1_0000_0000) / 65536,
        v6_groups(v)[7] == (v % 0x1_0000_0000) % 65536,
{
    assert(v < 0x1_0000_0000_0000);
    assert(v / 0x1_0000 % 65536 == (v % 0x1_0000_0000) / 65536);
    assert(v % 65536 == (v % 0x1_0000_0000) % 65536);
}

proof fn v4_free_of_colon(v: u32)
    ensures
        free_of(v4_text(v), ':'),
        v4_text(v).len() >= 7,
{
    dec_reads_back((v / 16777216) as nat);
    dec_reads_back((v / 65536 % 256) as nat);
    dec_reads_back((v / 256 % 256) as nat);
    dec_reads_back((v % 256) as nat);
}

/// An address is read back from its text.
pub proof fn ip_reads_back(ip: IpAddr, t: Seq<char>)
    requires
        is_ip_text(ip, t),
    ensures
        ip_of(t) == Some(ip),
{
    match ip {
        IpAddr::V4(v) => v4_reads_back(v),
        IpAddr::V6(v) => {
            v6_value(v);
            let g = v6_groups(v);
            if v4_mapped(v) {
                mapped_reads_back(v);
                colon_is_no_v4(t, 0);
            } else {
                let s = choose|s: int| #[trigger]
                    longest_run_at(g, s) && t == compressed_text(g, s);
                groups_read_back(g, s);
                let i = choose|i: int| 0 <= i < t.len() && t[i] == ':';
                colon_is_no_v4(t, i);
            }
        },
    }
}

} // verus!
