//! QPACK header blocks without a dynamic table (RFC 9204).

use crate::huffman::{huffman_bytes, huffman_decode};
use crate::text::{from_utf8_lossy, lossy_text};
use crate::wire::put_bytes;
use vstd::arithmetic::power2::{lemma2_to64, lemma_pow2_pos, pow2};
use vstd::prelude::*;
use vstd::utf8::{encode_utf8, encode_utf8_decode_utf8, encode_utf8_valid_utf8};

verus! {

/// Why a header block cannot be read.
#[derive(Clone, Copy, Debug, PartialEq, Eq, Structural)]
pub enum QpackError {
    /// The block lacks its two-byte prefix.
    TooShort,
}

/// The continuation bytes of an integer: the number they spell, low digits first in base
/// 128, and how many they are.
pub open spec fn int_tail(s: Seq<u8>) -> Option<(nat, nat)>
    decreases s.len(),
{
    if s.len() == 0 {
        None
    } else if s[0] < 128 {
        Some((s[0] as nat, 1))
    } else {
        match int_tail(s.skip(1)) {
            Some((v, n)) => Some(((s[0] - 128 + 128 * v) as nat, n + 1)),
            None => None,
        }
    }
}

/// The integer at the start of `s` whose first `prefix` bits share a byte with flags:
/// its value and the number of bytes it takes (RFC 7541, section 5.1).
#[verifier::opaque]
pub open spec fn qpack_int(s: Seq<u8>, prefix: nat) -> Option<(nat, nat)> {
    if s.len() == 0 {
        None
    } else {
        let first = s[0] as nat % pow2(prefix);
        if first + 1 < pow2(prefix) {
            Some((first, 1))
        } else {
            match int_tail(s.skip(1)) {
                Some((v, n)) => Some((first + v, n + 1)),
                None => None,
            }
        }
    }
}

/// The continuation bytes that spell `v`.
pub open spec fn tail_bytes(v: nat) -> Seq<u8>
    decreases v,
{
    if v < 128 {
        seq![v as u8]
    } else {
        seq![(128 + v % 128) as u8] + tail_bytes(v / 128)
    }
}

/// The encoding of `v` below the flag bits `flags`.
pub open spec fn int_bytes(v: nat, prefix: nat, flags: nat) -> Seq<u8> {
    if v + 1 < pow2(prefix) {
        seq![(flags + v) as u8]
    } else {
        seq![(flags + pow2(prefix) - 1) as u8] + tail_bytes((v + 1 - pow2(prefix)) as nat)
    }
}

/// The string at `i` whose length has a prefix of `prefix` bits, with the Huffman flag
/// right above it: its text and where it ends.
#[verifier::opaque]
pub open spec fn string_at(s: Seq<u8>, i: int, prefix: nat) -> Option<(Seq<char>, int)> {
    match qpack_int(s.skip(i), prefix) {
        Some((len, n)) => if i + n + len > s.len() {
            None
        } else {
            let bytes = s.subrange(i + n, i + n + len);
            Some(
                (
                    if s[i] as nat / pow2(prefix) % 2 == 1 {
                        lossy_text(huffman_bytes(bytes))
                    } else {
                        lossy_text(bytes)
                    },
                    i + n + len,
                ),
            )
        },
        None => None,
    }
}

/// What stands at one position of a header block.
pub enum Field {
    /// Nothing that can be read any further.
    Stop,
    /// Something that yields no header, up to the given position.
    Skip(int),
    /// A header, up to the given position.
    Header(Seq<char>, Seq<char>, int),
}

/// The entry of the static table at `idx` (RFC 9204, appendix A), for those that an
/// authentication response can hold.
#[verifier::opaque]
pub open spec fn static_entry(idx: nat) -> Option<(Seq<char>, Seq<char>)> {
    if idx == 0 {
        Some((":authority"@, ""@))
    } else if idx == 1 {
        Some((":path"@, "/"@))
    } else if idx == 2 {
        Some(("age"@, "0"@))
    } else if idx == 3 {
        Some(("content-disposition"@, ""@))
    } else if idx == 4 {
        Some(("content-length"@, "0"@))
    } else if idx == 5 {
        Some(("cookie"@, ""@))
    } else if idx == 6 {
        Some(("date"@, ""@))
    } else if idx == 7 {
        Some(("etag"@, ""@))
    } else if idx == 8 {
        Some(("if-modified-since"@, ""@))
    } else if idx == 9 {
        Some(("if-none-match"@, ""@))
    } else if idx == 10 {
        Some(("last-modified"@, ""@))
    } else if idx == 11 {
        Some(("link"@, ""@))
    } else if idx == 12 {
        Some(("location"@, ""@))
    } else if idx == 13 {
        Some(("referer"@, ""@))
    } else if idx == 14 {
        Some(("set-cookie"@, ""@))
    } else if idx == 15 {
        Some((":method"@, "CONNECT"@))
    } else if idx == 16 {
        Some((":method"@, "DELETE"@))
    } else if idx == 17 {
        Some((":method"@, "GET"@))
    } else if idx == 18 {
        Some((":method"@, "HEAD"@))
    } else if idx == 19 {
        Some((":method"@, "OPTIONS"@))
    } else if idx == 20 {
        Some((":method"@, "POST"@))
    } else if idx == 21 {
        Some((":method"@, "PUT"@))
    } else if idx == 22 {
        Some((":scheme"@, "http"@))
    } else if idx == 23 {
        Some((":scheme"@, "https"@))
    } else if idx == 24 {
        Some((":status"@, "103"@))
    } else if idx == 25 {
        Some((":status"@, "200"@))
    } else if idx == 26 {
        Some((":status"@, "304"@))
    } else if idx == 27 {
        Some((":status"@, "404"@))
    } else if idx == 28 {
        Some((":status"@, "503"@))
    } else {
        None
    }
}

/// The name of the static entry at `idx`, empty where the table has none.
pub open spec fn static_name_or_empty(idx: nat) -> Seq<char> {
    match static_entry(idx) {
        Some((name, _)) => name,
        None => Seq::empty(),
    }
}

/// The field line at `i`.
pub open spec fn field_at(s: Seq<u8>, i: int) -> Field {
    if s[i] >= 128 {
        match qpack_int(s.skip(i), 6) {
            None => Field::Stop,
            Some((idx, n)) => match static_entry(idx) {
                Some((name, value)) => Field::Header(name, value, i + n),
                None => Field::Skip(i + n),
            },
        }
    } else if s[i] >= 64 {
        match qpack_int(s.skip(i), 4) {
            None => Field::Stop,
            Some((idx, n)) => match string_at(s, i + n, 7) {
                None => Field::Stop,
                Some((value, next)) => Field::Header(static_name_or_empty(idx), value, next),
            },
        }
    } else if s[i] >= 32 {
        match string_at(s, i, 3) {
            None => Field::Stop,
            Some((name, mid)) => match string_at(s, mid, 7) {
                None => Field::Stop,
                Some((value, next)) => Field::Header(name, value, next),
            },
        }
    } else {
        Field::Skip(i + 1)
    }
}

/// The headers of the block from `i` on.
pub open spec fn fields_from(s: Seq<u8>, i: int) -> Seq<(Seq<char>, Seq<char>)>
    decreases s.len() - i,
{
    if 0 <= i < s.len() {
        match field_at(s, i) {
            Field::Stop => Seq::empty(),
            Field::Skip(next) => if i < next <= s.len() {
                fields_from(s, next)
            } else {
                Seq::empty()
            },
            Field::Header(name, value, next) => if i < next <= s.len() {
                seq![(name, value)] + fields_from(s, next)
            } else {
                Seq::empty()
            },
        }
    } else {
        Seq::empty()
    }
}

/// Header lists by the text of their names and values.
pub open spec fn header_texts(headers: Seq<(String, String)>) -> Seq<(Seq<char>, Seq<char>)> {
    headers.map_values(|h: (String, String)| (h.0@, h.1@))
}

/// A literal field line: the name and the value in full, neither Huffman-coded.
pub open spec fn literal_bytes(name: Seq<u8>, value: Seq<u8>) -> Seq<u8> {
    int_bytes(name.len(), 3, 0x20) + name + int_bytes(value.len(), 7, 0) + value
}

/// The field lines of a list of headers.
pub open spec fn literal_lines(headers: Seq<(Seq<char>, Seq<char>)>) -> Seq<u8>
    decreases headers.len(),
{
    if headers.len() == 0 {
        Seq::empty()
    } else {
        literal_bytes(encode_utf8(headers[0].0), encode_utf8(headers[0].1)) + literal_lines(
            headers.skip(1),
        )
    }
}

/// A header block of literal field lines.
pub open spec fn literal_block(headers: Seq<(Seq<char>, Seq<char>)>) -> Seq<u8> {
    seq![0u8, 0u8] + literal_lines(headers)
}

proof fn tail_bounds(s: Seq<u8>)
    ensures
        int_tail(s) matches Some((_, n)) ==> 1 <= n <= s.len(),
    decreases s.len(),
{
    if s.len() > 0 && s[0] >= 128 {
        tail_bounds(s.skip(1));
    }
}

proof fn tail_round_trip(v: nat, rest: Seq<u8>)
    ensures
        int_tail(tail_bytes(v) + rest) == Some((v, tail_bytes(v).len())),
    decreases v,
{
    let s = tail_bytes(v) + rest;
    if v >= 128 {
        tail_round_trip(v / 128, rest);
        assert(s.skip(1) =~= tail_bytes(v / 128) + rest);
    }
}

/// An integer is read back as it was written, whatever follows it.
pub proof fn int_round_trip(v: nat, prefix: nat, flags: nat, rest: Seq<u8>)
    requires
        1 <= prefix <= 7,
        flags % pow2(prefix) == 0,
        flags + pow2(prefix) <= 256,
    ensures
        qpack_int(int_bytes(v, prefix, flags) + rest, prefix) == Some(
            (v, int_bytes(v, prefix, flags).len()),
        ),
        int_bytes(v, prefix, flags).len() >= 1,
        flags <= int_bytes(v, prefix, flags)[0] < flags + pow2(prefix),
{
    reveal(qpack_int);
    lemma_pow2_pos(prefix);
    let p = pow2(prefix);
    let s = int_bytes(v, prefix, flags) + rest;
    if v + 1 < p {
        vstd::arithmetic::div_mod::lemma_mod_adds(flags as int, v as int, p as int);
        assert(v % p == v) by {
            vstd::arithmetic::div_mod::lemma_small_mod(v, p);
        }
        vstd::arithmetic::div_mod::lemma_add_mod_noop(flags as int, v as int, p as int);
        assert(s[0] as nat == flags + v);
        assert(s[0] as nat % p == v);
    } else {
        let w = (p - 1) as nat;
        assert(w % p == w) by {
            vstd::arithmetic::div_mod::lemma_small_mod(w, p);
        }
        vstd::arithmetic::div_mod::lemma_add_mod_noop(flags as int, w as int, p as int);
        assert(s[0] as nat == flags + w);
        assert(s[0] as nat % p == w);
        tail_round_trip((v + 1 - p) as nat, rest);
        assert(s.skip(1) =~= tail_bytes((v + 1 - p) as nat) + rest);
    }
}

proof fn string_round_trip(before: Seq<u8>, bytes: Seq<u8>, prefix: nat, flags: nat, rest: Seq<u8>)
    requires
        1 <= prefix <= 7,
        flags % pow2(prefix) == 0,
        flags + pow2(prefix) <= 256,
        flags / pow2(prefix) % 2 == 0,
    ensures
        string_at(
            before + (int_bytes(bytes.len(), prefix, flags) + bytes + rest),
            before.len() as int,
            prefix,
        ) == Some(
            (
                lossy_text(bytes),
                (before.len() + int_bytes(bytes.len(), prefix, flags).len() + bytes.len()) as int,
            ),
        ),
{
    reveal(string_at);
    let head = int_bytes(bytes.len(), prefix, flags);
    let s = before + (head + bytes + rest);
    let i = before.len() as int;
    lemma_pow2_pos(prefix);
    int_round_trip(bytes.len(), prefix, flags, bytes + rest);
    assert(s.skip(i) =~= head + (bytes + rest));
    assert(s.subrange(i + head.len(), i + head.len() + bytes.len()) =~= bytes);
    assert(s[i] == head[0]);
    let p = pow2(prefix);
    let b = s[i] as nat;
    assert(b / p == flags / p) by {
        vstd::arithmetic::div_mod::lemma_fundamental_div_mod(flags as int, p as int);
        let q = flags / p;
        assert(flags == p * q);
        vstd::arithmetic::div_mod::lemma_fundamental_div_mod_converse(
            b as int,
            p as int,
            q as int,
            b - flags,
        );
    }
}

proof fn line_round_trip(before: Seq<u8>, name: Seq<char>, value: Seq<char>, rest: Seq<u8>)
    ensures
        field_at(
            before + (literal_bytes(encode_utf8(name), encode_utf8(value)) + rest),
            before.len() as int,
        ) == Field::Header(
            name,
            value,
            (before.len() + literal_bytes(encode_utf8(name), encode_utf8(value)).len()) as int,
        ),
{
    let n = encode_utf8(name);
    let v = encode_utf8(value);
    let s = before + (literal_bytes(n, v) + rest);
    lemma2_to64();
    assert(pow2(3) == 8 && pow2(7) == 128);
    encode_utf8_valid_utf8(name);
    encode_utf8_valid_utf8(value);
    encode_utf8_decode_utf8(name);
    encode_utf8_decode_utf8(value);
    let n_head = int_bytes(n.len(), 3, 0x20);
    let v_head = int_bytes(v.len(), 7, 0);
    let tail = v_head + v + rest;
    string_round_trip(before, n, 3, 0x20, tail);
    assert(s =~= before + (n_head + n + tail));
    let mid = before + (n_head + n);
    string_round_trip(mid, v, 7, 0, rest);
    assert(s =~= mid + (v_head + v + rest));
    int_round_trip(n.len(), 3, 0x20, n + tail);
    assert(s[before.len() as int] == n_head[0]);
}

proof fn lines_round_trip(before: Seq<u8>, headers: Seq<(Seq<char>, Seq<char>)>)
    ensures
        fields_from(before + literal_lines(headers), before.len() as int) == headers,
    decreases headers.len(),
{
    let s = before + literal_lines(headers);
    let i = before.len() as int;
    if headers.len() == 0 {
        assert(s.len() == i);
        assert(headers =~= Seq::empty());
    } else {
        let line = literal_bytes(encode_utf8(headers[0].0), encode_utf8(headers[0].1));
        let rest = literal_lines(headers.skip(1));
        assert(literal_lines(headers) == line + rest);
        line_round_trip(before, headers[0].0, headers[0].1, rest);
        lemma2_to64();
        int_round_trip(encode_utf8(headers[0].0).len(), 3, 0x20, Seq::empty());
        assert(line.len() > 0);
        lines_round_trip(before + line, headers.skip(1));
        assert(s =~= (before + line) + rest);
        assert(seq![headers[0]] + headers.skip(1) =~= headers);
    }
}

/// A block of literal field lines is read back as the headers it was made from.
pub proof fn block_round_trip(headers: Seq<(Seq<char>, Seq<char>)>)
    ensures
        fields_from(literal_block(headers), 2) == headers,
{
    lines_round_trip(seq![0u8, 0u8], headers);
}

// ---- blocks that are cut short ----

/// A whole literal field line, with its name and its value in full: each may be Huffman-coded.
pub open spec fn literal_line(line: Seq<u8>) -> Option<(Seq<char>, Seq<char>)> {
    if line.len() == 0 || line[0] < 32 || line[0] >= 64 {
        None
    } else {
        match string_at(line, 0, 3) {
            None => None,
            Some((name, mid)) => match string_at(line, mid, 7) {
                Some((value, end)) => if end == line.len() {
                    Some((name, value))
                } else {
                    None
                },
                None => None,
            },
        }
    }
}

/// The lines one after another.
pub open spec fn joined(lines: Seq<Seq<u8>>) -> Seq<u8>
    decreases lines.len(),
{
    if lines.len() == 0 {
        Seq::empty()
    } else {
        lines[0] + joined(lines.skip(1))
    }
}

/// The lines are literal field lines with these headers.
pub open spec fn lines_of(lines: Seq<Seq<u8>>, headers: Seq<(Seq<char>, Seq<char>)>) -> bool {
    &&& lines.len() == headers.len()
    &&& forall|i: int|
        0 <= i < lines.len() ==> literal_line(#[trigger] lines[i]) == Some(headers[i])
}

/// An integer is the same in whatever starts with its bytes.
proof fn tail_in_front(s: Seq<u8>, u: Seq<u8>, n: nat)
    requires
        int_tail(s) matches Some((_, m)) && m == n,
        u.len() >= n,
        u.take(n as int) == s.take(n as int),
    ensures
        int_tail(u) == int_tail(s),
        1 <= n <= s.len(),
    decreases s.len(),
{
    tail_bounds(s);
    assert(u.take(n as int)[0] == u[0] && s.take(n as int)[0] == s[0]);
    if s[0] >= 128 {
        let k = (n - 1) as nat;
        tail_bounds(s.skip(1));
        assert(u.skip(1).take(k as int) =~= u.take(n as int).skip(1));
        assert(s.skip(1).take(k as int) =~= s.take(n as int).skip(1));
        tail_in_front(s.skip(1), u.skip(1), k);
    }
}

/// Less than all of an integer is none.
proof fn tail_cut(s: Seq<u8>, k: nat)
    requires
        int_tail(s) matches Some((_, n)) && k < n,
    ensures
        int_tail(s.take(k as int)) is None,
    decreases s.len(),
{
    tail_bounds(s);
    if k > 0 {
        assert(s.take(k as int).skip(1) =~= s.skip(1).take(k - 1));
        tail_cut(s.skip(1), (k - 1) as nat);
    }
}

proof fn int_in_front(s: Seq<u8>, u: Seq<u8>, prefix: nat, n: nat)
    requires
        qpack_int(s, prefix) matches Some((_, m)) && m == n,
        u.len() >= n,
        u.take(n as int) == s.take(n as int),
    ensures
        qpack_int(u, prefix) == qpack_int(s, prefix),
        1 <= n <= s.len(),
{
    reveal(qpack_int);
    tail_bounds(s.skip(1));
    assert(u.take(n as int)[0] == u[0] && s.take(n as int)[0] == s[0]);
    if s[0] as nat % pow2(prefix) + 1 >= pow2(prefix) {
        let k = (n - 1) as nat;
        assert(u.skip(1).take(k as int) =~= u.take(n as int).skip(1));
        assert(s.skip(1).take(k as int) =~= s.take(n as int).skip(1));
        tail_in_front(s.skip(1), u.skip(1), k);
    }
}

proof fn int_cut(s: Seq<u8>, prefix: nat, k: nat)
    requires
        qpack_int(s, prefix) matches Some((_, n)) && k < n,
    ensures
        qpack_int(s.take(k as int), prefix) is None,
{
    reveal(qpack_int);
    tail_bounds(s.skip(1));
    if k > 0 {
        assert(s.take(k as int)[0] == s[0]);
        assert(s.take(k as int).skip(1) =~= s.skip(1).take(k - 1));
        tail_cut(s.skip(1), (k - 1) as nat);
    }
}

proof fn string_bounds(s: Seq<u8>, i: int, prefix: nat)
    requires
        0 <= i <= s.len(),
    ensures
        string_at(s, i, prefix) matches Some((_, m)) ==> i < m <= s.len(),
{
    reveal(string_at);
    reveal(qpack_int);
    tail_bounds(s.skip(i).skip(1));
}

/// A string is the same in whatever starts with its bytes.
proof fn string_in_front(s: Seq<u8>, u: Seq<u8>, i: int, prefix: nat)
    requires
        0 <= i <= s.len(),
        string_at(s, i, prefix) matches Some((_, m)) && u.len() >= m && u.take(m) == s.take(m),
    ensures
        string_at(u, i, prefix) == string_at(s, i, prefix),
{
    string_bounds(s, i, prefix);
    reveal(string_at);
    let m = string_at(s, i, prefix).unwrap().1;
    let (len, n) = qpack_int(s.skip(i), prefix).unwrap();
    assert(i + n + len == m);
    assert(u.skip(i).take(n as int) =~= u.take(m).subrange(i, i + n as int));
    assert(s.skip(i).take(n as int) =~= s.take(m).subrange(i, i + n as int));
    int_in_front(s.skip(i), u.skip(i), prefix, n);
    assert(u.take(m)[i] == s.take(m)[i]);
    assert(u.subrange(i + n, m) =~= u.take(m).subrange(i + n, m));
    assert(s.subrange(i + n, m) =~= s.take(m).subrange(i + n, m));
}

/// Less than all of a string is none.
proof fn string_cut(s: Seq<u8>, i: int, prefix: nat, k: int)
    requires
        0 <= i <= k,
        string_at(s, i, prefix) matches Some((_, m)) && k < m,
    ensures
        string_at(s.take(k), i, prefix) is None,
{
    reveal(string_at);
    let t = s.skip(i);
    let (len, n) = qpack_int(t, prefix).unwrap();
    assert(s.take(k).skip(i) =~= t.take(k - i));
    if k - i < n {
        int_cut(t, prefix, (k - i) as nat);
    } else {
        assert(t.take(k - i).take(n as int) =~= t.take(n as int));
        int_in_front(t, t.take(k - i), prefix, n);
    }
}

/// A string does not depend on what stands before it.
proof fn string_moves(before: Seq<u8>, u: Seq<u8>, i: int, prefix: nat)
    requires
        0 <= i <= u.len(),
    ensures
        string_at(before + u, before.len() + i, prefix) == match string_at(u, i, prefix) {
            Some((text, end)) => Some((text, before.len() + end)),
            None => None,
        },
{
    reveal(string_at);
    reveal(qpack_int);
    let s = before + u;
    let b = before.len() as int;
    assert(s.skip(b + i) =~= u.skip(i));
    if let Some((len, n)) = qpack_int(u.skip(i), prefix) {
        if i + n + len <= u.len() {
            tail_bounds(u.skip(i).skip(1));
            assert(s.subrange(b + i + n, b + i + n + len) =~= u.subrange(i + n, i + n + len));
            assert(s[b + i] == u[i]);
        }
    }
}

/// A literal line is read as such wherever it stands.
proof fn line_reads(before: Seq<u8>, line: Seq<u8>, rest: Seq<u8>)
    requires
        literal_line(line) is Some,
    ensures
        field_at(before + (line + rest), before.len() as int) == Field::Header(
            literal_line(line).unwrap().0,
            literal_line(line).unwrap().1,
            (before.len() + line.len()) as int,
        ),
{
    let u = line + rest;
    let mid = string_at(line, 0, 3).unwrap().1;
    string_bounds(line, 0, 3);
    assert(u.take(mid) =~= line.take(mid));
    string_in_front(line, u, 0, 3);
    assert(u.take(line.len() as int) =~= line.take(line.len() as int));
    string_in_front(line, u, mid, 7);
    string_moves(before, u, 0, 3);
    string_moves(before, u, mid, 7);
    assert((before + u)[before.len() as int] == line[0]);
}

/// Less than all of a literal line stops the reading.
proof fn cut_line_stops(before: Seq<u8>, line: Seq<u8>, k: int)
    requires
        literal_line(line) is Some,
        0 < k < line.len(),
    ensures
        field_at(before + line.take(k), before.len() as int) is Stop,
{
    let u = line.take(k);
    let mid = string_at(line, 0, 3).unwrap().1;
    assert((before + u)[before.len() as int] == line[0]);
    string_moves(before, u, 0, 3);
    if k < mid {
        string_cut(line, 0, 3, k);
    } else {
        string_bounds(line, 0, 3);
        assert(u.take(mid) =~= line.take(mid));
        string_in_front(line, u, 0, 3);
        string_cut(line, mid, 7, k);
        string_moves(before, u, mid, 7);
    }
}

proof fn lines_read(
    before: Seq<u8>,
    lines: Seq<Seq<u8>>,
    headers: Seq<(Seq<char>, Seq<char>)>,
    tail: Seq<u8>,
)
    requires
        lines_of(lines, headers),
    ensures
        fields_from(before + (joined(lines) + tail), before.len() as int) == headers + fields_from(
            before + (joined(lines) + tail),
            (before.len() + joined(lines).len()) as int,
        ),
    decreases lines.len(),
{
    let s = before + (joined(lines) + tail);
    let end = (before.len() + joined(lines).len()) as int;
    if lines.len() == 0 {
        assert(headers + fields_from(s, end) =~= fields_from(s, end));
    } else {
        let line = lines[0];
        let rest = joined(lines.skip(1)) + tail;
        assert(literal_line(lines[0]) == Some(headers[0]));
        assert forall|i: int| 0 <= i < lines.len() - 1 implies literal_line(
            #[trigger] lines.skip(1)[i],
        ) == Some(headers.skip(1)[i]) by {
            assert(literal_line(lines[i + 1]) == Some(headers[i + 1]));
        }
        assert(joined(lines) + tail =~= line + rest);
        line_reads(before, line, rest);
        lines_read(before + line, lines.skip(1), headers.skip(1), tail);
        assert(s =~= (before + line) + rest);
        let late = fields_from(s, end);
        assert(seq![headers[0]] + (headers.skip(1) + late) =~= headers + late);
    }
}

/// A block of literal field lines gives one header for each line, in order. Where part of one more
/// line follows them, that line is lost, and the ones before it are kept. The first two bytes of
/// the block may be any.
pub proof fn cut_line_is_lost(
    prefix: Seq<u8>,
    lines: Seq<Seq<u8>>,
    headers: Seq<(Seq<char>, Seq<char>)>,
    line: Seq<u8>,
    k: int,
)
    requires
        prefix.len() == 2,
        lines_of(lines, headers),
        literal_line(line) is Some,
        0 < k < line.len(),
    ensures
        fields_from(prefix + joined(lines), 2) == headers,
        fields_from(prefix + joined(lines) + line.take(k), 2) == headers,
{
    let none = Seq::<(Seq<char>, Seq<char>)>::empty();
    let whole = prefix + joined(lines);
    lines_read(prefix, lines, headers, Seq::empty());
    assert(prefix + (joined(lines) + Seq::<u8>::empty()) =~= whole);
    assert(headers + none =~= headers);
    lines_read(prefix, lines, headers, line.take(k));
    assert(prefix + (joined(lines) + line.take(k)) =~= whole + line.take(k));
    cut_line_stops(whole, line, k);
}

fn prefix_cap(prefix_bits: u8) -> (cap: u64)
    requires
        prefix_bits <= 7,
    ensures
        cap == pow2(prefix_bits as nat),
        1 <= cap <= 128,
{
    proof {
        lemma2_to64();
    }
    if prefix_bits == 0 {
        1
    } else if prefix_bits == 1 {
        2
    } else if prefix_bits == 2 {
        4
    } else if prefix_bits == 3 {
        8
    } else if prefix_bits == 4 {
        16
    } else if prefix_bits == 5 {
        32
    } else if prefix_bits == 6 {
        64
    } else {
        128
    }
}

/// The smaller of `v` and the largest 64-bit number.
pub open spec fn capped(v: nat) -> nat {
    if v < u64::MAX {
        v
    } else {
        u64::MAX as nat
    }
}

/// Moves one continuation byte between the front of the rest and the part read so far.
proof fn tail_end(s: Seq<u8>, e: int)
    requires
        0 <= e < s.len(),
        s[e] < 128,
        forall|j: int| 0 <= j < e ==> s[j] >= 128,
    ensures
        int_tail(s) matches Some((_, n)) && n == e + 1,
    decreases e,
{
    if e > 0 {
        let t = s.skip(1);
        assert forall|j: int| 0 <= j < e - 1 implies t[j] >= 128 by {
            assert(t[j] == s[j + 1]);
        }
        tail_end(t, e - 1);
    }
}

proof fn no_tail(s: Seq<u8>)
    requires
        forall|j: int| 0 <= j < s.len() ==> s[j] >= 128,
    ensures
        int_tail(s) is None,
    decreases s.len(),
{
    if s.len() > 0 {
        let t = s.skip(1);
        assert forall|j: int| 0 <= j < t.len() implies t[j] >= 128 by {
            assert(t[j] == s[j + 1]);
        }
        no_tail(t);
    }
}

/// Reads the integer at the start of `data` below `8 - prefix_bits` flag bits, with the
/// number of bytes it takes. A number beyond 64 bits is read as the largest one.
pub fn qpack_read_int(data: &[u8], prefix_bits: u8) -> (res: Option<(u64, usize)>)
    requires
        prefix_bits <= 7,
    ensures
        match (res, qpack_int(data@, prefix_bits as nat)) {
            (Some((v, n)), Some((w, m))) => v as nat == capped(w) && n as nat == m,
            (None, None) => true,
            _ => false,
        },
        res matches Some((_, n)) ==> 1 <= n <= data@.len(),
{
    proof {
        reveal(qpack_int);
    }
    if data.len() == 0 {
        return None;
    }
    let cap: u64 = prefix_cap(prefix_bits);
    let first: u64 = data[0] as u64 % cap;
    if first + 1 < cap {
        return Some((first, 1));
    }
    let ghost s = data@.skip(1);
    let mut end: usize = 1;
    while end < data.len() && data[end] >= 128
        invariant
            1 <= end <= data@.len(),
            s == data@.skip(1),
            forall|j: int| 0 <= j < end - 1 ==> s[j] >= 128,
        decreases data@.len() - end,
    {
        end += 1;
    }
    if end == data.len() {
        proof {
            no_tail(s);
        }
        return None;
    }
    proof {
        tail_end(s, end - 1);
    }
    let mut v: u64 = data[end] as u64;
    let mut i: usize = end;
    assert(s.skip(end - 1)[0] == data@[end as int]);
    while i > 1
        invariant
            1 <= i <= end < data@.len(),
            s == data@.skip(1),
            forall|j: int| 0 <= j < end - 1 ==> s[j] >= 128,
            int_tail(s.skip(i - 1)) matches Some((w, _)) && v as nat == capped(w),
        decreases i,
    {
        i -= 1;
        let b: u64 = data[i] as u64 - 128;
        assert(s[i - 1] >= 128);
        assert(s.skip(i - 1).skip(1) =~= s.skip(i as int));
        assert(s.skip(i - 1)[0] == data@[i as int]);
        v = if v > (u64::MAX - b) / 128 {
            u64::MAX
        } else {
            b + 128 * v
        };
    }
    assert(s.skip(0) =~= s);
    let total: u64 = if v > u64::MAX - first {
        u64::MAX
    } else {
        first + v
    };
    Some((total, end + 1))
}

/// The static table entry at `idx`.
pub fn qpack_static_entry(idx: u64) -> (entry: Option<(&'static str, &'static str)>)
    ensures
        match (entry, static_entry(idx as nat)) {
            (Some((n, v)), Some((m, w))) => n@ == m && v@ == w,
            (None, None) => true,
            _ => false,
        },
{
    proof {
        reveal(static_entry);
    }
    match idx {
        0 => Some((":authority", "")),
        1 => Some((":path", "/")),
        2 => Some(("age", "0")),
        3 => Some(("content-disposition", "")),
        4 => Some(("content-length", "0")),
        5 => Some(("cookie", "")),
        6 => Some(("date", "")),
        7 => Some(("etag", "")),
        8 => Some(("if-modified-since", "")),
        9 => Some(("if-none-match", "")),
        10 => Some(("last-modified", "")),
        11 => Some(("link", "")),
        12 => Some(("location", "")),
        13 => Some(("referer", "")),
        14 => Some(("set-cookie", "")),
        15 => Some((":method", "CONNECT")),
        16 => Some((":method", "DELETE")),
        17 => Some((":method", "GET")),
        18 => Some((":method", "HEAD")),
        19 => Some((":method", "OPTIONS")),
        20 => Some((":method", "POST")),
        21 => Some((":method", "PUT")),
        22 => Some((":scheme", "http")),
        23 => Some((":scheme", "https")),
        24 => Some((":status", "103")),
        25 => Some((":status", "200")),
        26 => Some((":status", "304")),
        27 => Some((":status", "404")),
        28 => Some((":status", "503")),
        _ => None,
    }
}

/// The name of the static table entry at `idx`.
pub fn qpack_static_name(idx: u64) -> (name: Option<&'static str>)
    ensures
        match (name, static_entry(idx as nat)) {
            (Some(n), Some((m, _))) => n@ == m,
            (None, None) => true,
            _ => false,
        },
{
    match qpack_static_entry(idx) {
        Some((name, _)) => Some(name),
        None => None,
    }
}

/// Reads the string at `i`: its text and where it ends.
fn read_string(data: &[u8], i: usize, prefix_bits: u8) -> (res: Option<(String, usize)>)
    requires
        i <= data@.len(),
        prefix_bits <= 7,
    ensures
        match (res, string_at(data@, i as int, prefix_bits as nat)) {
            (Some((t, n)), Some((u, m))) => t@ == u && n == m,
            (None, None) => true,
            _ => false,
        },
        res matches Some((_, n)) ==> i < n <= data@.len(),
{
    proof {
        reveal(string_at);
    }
    let rest: &[u8] = &data[i..data.len()];
    assert(rest@ =~= data@.skip(i as int));
    match qpack_read_int(rest, prefix_bits) {
        None => None,
        Some((len, n)) => {
            let start: usize = i + n;
            if len > (data.len() - start) as u64 {
                return None;
            }
            let end: usize = start + len as usize;
            let bytes: &[u8] = &data[start..end];
            let cap: u8 = prefix_cap(prefix_bits) as u8;
            let text: String = if data[i] / cap % 2 == 1 {
                huffman_decode(bytes)
            } else {
                from_utf8_lossy(bytes)
            };
            Some((text, end))
        },
    }
}

/// One field line: where the next one starts, and the header if the line gives one.
type Line = (Option<(String, String)>, usize);

/// What reading the line at `i` gives, against what stands there.
spec fn line_is(line: Option<Line>, field: Field, i: int, len: int) -> bool {
    match (line, field) {
        (None, Field::Stop) => true,
        (Some((None, n)), Field::Skip(m)) => n == m && i < n <= len,
        (Some((Some((a, b)), n)), Field::Header(x, y, m)) => a@ == x && b@ == y && n == m && i < n
            <= len,
        _ => false,
    }
}

fn read_indexed(data: &[u8], i: usize) -> (line: Option<Line>)
    requires
        i < data@.len(),
        data@[i as int] >= 128,
    ensures
        line_is(line, field_at(data@, i as int), i as int, data@.len() as int),
{
    let rest: &[u8] = &data[i..data.len()];
    assert(rest@ =~= data@.skip(i as int));
    match qpack_read_int(rest, 6) {
        None => None,
        Some((idx, n)) => {
            proof {
                reveal(static_entry);
            }
            match qpack_static_entry(idx) {
                Some((name, value)) => Some((Some((name.to_string(), value.to_string())), i + n)),
                None => Some((None, i + n)),
            }
        },
    }
}

fn read_name_reference(data: &[u8], i: usize) -> (line: Option<Line>)
    requires
        i < data@.len(),
        64 <= data@[i as int] < 128,
    ensures
        line_is(line, field_at(data@, i as int), i as int, data@.len() as int),
{
    let rest: &[u8] = &data[i..data.len()];
    assert(rest@ =~= data@.skip(i as int));
    match qpack_read_int(rest, 4) {
        None => None,
        Some((idx, n)) => match read_string(data, i + n, 7) {
            None => None,
            Some((value, end)) => {
                proof {
                    reveal(static_entry);
                }
                let name: String = match qpack_static_name(idx) {
                    Some(name) => name.to_string(),
                    None => String::new(),
                };
                assert(name@ =~= static_name_or_empty(
                    qpack_int(data@.skip(i as int), 4).unwrap().0,
                ));
                Some((Some((name, value)), end))
            },
        },
    }
}

fn read_literal(data: &[u8], i: usize) -> (line: Option<Line>)
    requires
        i < data@.len(),
        32 <= data@[i as int] < 64,
    ensures
        line_is(line, field_at(data@, i as int), i as int, data@.len() as int),
{
    match read_string(data, i, 3) {
        None => None,
        Some((name, mid)) => match read_string(data, mid, 7) {
            None => None,
            Some((value, end)) => Some((Some((name, value)), end)),
        },
    }
}

/// Reads the headers of a block. Reading stops without an error where the block is cut
/// short, and lines of forms other than the indexed one and the two literal ones are
/// stepped over byte by byte.
pub fn parse_headers_from_qpack(payload: &[u8]) -> (res: Result<Vec<(String, String)>, QpackError>)
    ensures
        payload@.len() < 2 ==> res == Err::<Vec<(String, String)>, QpackError>(
            QpackError::TooShort,
        ),
        payload@.len() >= 2 ==> res is Ok,
        res matches Ok(headers) ==> header_texts(headers@) == fields_from(payload@, 2),
{
    if payload.len() < 2 {
        return Err(QpackError::TooShort);
    }
    let mut headers: Vec<(String, String)> = Vec::new();
    let mut i: usize = 2;
    let ghost s = payload@;
    assert(header_texts(headers@) + fields_from(s, 2) =~= fields_from(s, 2));
    while i < payload.len()
        invariant_except_break
            header_texts(headers@) + fields_from(s, i as int) == fields_from(s, 2),
        invariant
            s == payload@,
            i <= payload@.len(),
        ensures
            header_texts(headers@) == fields_from(s, 2),
        decreases payload@.len() - i,
    {
        let b: u8 = payload[i];
        let ghost shown = header_texts(headers@);
        let line: Option<Line> = if b >= 128 {
            read_indexed(payload, i)
        } else if b >= 64 {
            read_name_reference(payload, i)
        } else if b >= 32 {
            read_literal(payload, i)
        } else {
            Some((None, i + 1))
        };
        assert(line_is(line, field_at(s, i as int), i as int, s.len() as int));
        match line {
            None => {
                assert(shown + Seq::<(Seq<char>, Seq<char>)>::empty() =~= shown);
                break;
            },
            Some((None, next)) => {
                i = next;
            },
            Some((Some((name, value)), next)) => {
                let ghost pair = (name@, value@);
                headers.push((name, value));
                proof {
                    let tail = fields_from(s, next as int);
                    assert(header_texts(headers@) =~= shown.push(pair));
                    assert(shown + (seq![pair] + tail) =~= shown.push(pair) + tail);
                }
                i = next;
            },
        }
    }
    Ok(headers)
}

fn put_int(buf: &mut Vec<u8>, v: usize, prefix_bits: u8, flags: u8)
    requires
        1 <= prefix_bits <= 7,
        flags + pow2(prefix_bits as nat) <= 256,
    ensures
        final(buf)@ == old(buf)@ + int_bytes(v as nat, prefix_bits as nat, flags as nat),
{
    let cap: u64 = prefix_cap(prefix_bits);
    if (v as u64) < cap - 1 {
        buf.push(flags + v as u8);
        assert(buf@ =~= old(buf)@ + int_bytes(v as nat, prefix_bits as nat, flags as nat));
        return;
    }
    buf.push(flags + (cap - 1) as u8);
    let mut rem: u64 = v as u64 - (cap - 1);
    let ghost all = tail_bytes(rem as nat);
    let ghost start = buf@;
    while rem >= 128
        invariant
            buf@ + tail_bytes(rem as nat) == start + all,
        decreases rem,
    {
        let ghost before = buf@;
        buf.push((128 + rem % 128) as u8);
        proof {
            let next = tail_bytes(rem as nat / 128);
            assert(before + (seq![(128 + rem % 128) as u8] + next) =~= buf@ + next);
        }
        rem = rem / 128;
    }
    let ghost before = buf@;
    buf.push(rem as u8);
    assert(buf@ =~= before + tail_bytes(rem as nat));
    assert(start + all =~= old(buf)@ + int_bytes(v as nat, prefix_bits as nat, flags as nat));
}

/// Appends a literal field line (RFC 9204, section 4.5.6), without Huffman coding.
pub fn put_literal_header(buf: &mut Vec<u8>, name: &[u8], value: &[u8])
    ensures
        final(buf)@ == old(buf)@ + literal_bytes(name@, value@),
{
    proof {
        lemma2_to64();
    }
    put_int(buf, name.len(), 3, 0x20);
    put_bytes(buf, name);
    put_int(buf, value.len(), 7, 0);
    put_bytes(buf, value);
    assert(buf@ =~= old(buf)@ + literal_bytes(name@, value@));
}

} // verus!
