//! The probe by which nodes are measured: its address, its request and the answer to it; and the
//! words of a line.

use crate::common::probe::{
    authority_parts, before_slash, http_mark, last_colon, probe_path, probe_target, probe_text,
    response_status, split_scheme, ProbeError,
};
use crate::encoding::{is_space, trim_end, trim_start, trimmed};
use crate::laws::bytes::ascii;
use crate::laws::words::{numbers_are_digits, numbers_are_read_back, parts_are_found};
use crate::text::{dec_text, first_at};
use crate::words::{behind_word, first_line, words};
use vstd::prelude::*;
use vstd::utf8::{encode_utf8, encode_utf8_decode_utf8, encode_utf8_valid_utf8, valid_utf8};

verus! {

/// No sign of the text is a blank.
pub open spec fn without_blanks(s: Seq<char>) -> bool {
    forall|i: int| 0 <= i < s.len() ==> !is_space(#[trigger] s[i])
}

/// No sign of the text is this one.
pub open spec fn without(s: Seq<char>, c: char) -> bool {
    forall|i: int| 0 <= i < s.len() ==> #[trigger] s[i] != c
}

/// The blanks of ASCII, and that letters, digits and signs are none.
pub proof fn blanks(c: char)
    ensures
        is_space(' '),
        is_space('\t'),
        is_space('\n'),
        is_space('\r'),
        '!' <= c && c <= '~' ==> !is_space(c),
        (c as u32) < 9 ==> !is_space(c),
        14 <= c as u32 && (c as u32) < 32 ==> !is_space(c),
{
}

/// A text is freed of the blanks around it and of nothing else.
pub proof fn blanks_are_cut(a: Seq<char>, s: Seq<char>, b: Seq<char>)
    requires
        forall|i: int| 0 <= i < a.len() ==> is_space(#[trigger] a[i]),
        forall|i: int| 0 <= i < b.len() ==> is_space(#[trigger] b[i]),
        s.len() > 0 ==> !is_space(s[0]) && !is_space(s.last()),
        s.len() == 0 ==> b.len() == 0,
    ensures
        trimmed(a + s + b) == s,
    decreases a.len() + b.len(),
{
    let t = a + s + b;
    if a.len() > 0 {
        assert(is_space(a[0]));
        assert(t.skip(1) =~= a.skip(1) + s + b);
        assert forall|i: int| 0 <= i < a.skip(1).len() implies is_space(
            #[trigger] a.skip(1)[i],
        ) by {
            assert(a.skip(1)[i] == a[i + 1]);
        }
        blanks_are_cut(a.skip(1), s, b);
    } else {
        assert(t =~= s + b);
        assert(trim_start(t) == t);
        ends_are_cut(s, b);
    }
}

proof fn ends_are_cut(s: Seq<char>, b: Seq<char>)
    requires
        forall|i: int| 0 <= i < b.len() ==> is_space(#[trigger] b[i]),
        s.len() > 0 ==> !is_space(s.last()),
    ensures
        trim_end(s + b) == s,
    decreases b.len(),
{
    if b.len() > 0 {
        assert(is_space(b[b.len() - 1]));
        assert((s + b).drop_last() =~= s + b.drop_last());
        ends_are_cut(s, b.drop_last());
    } else {
        assert(s + b =~= s);
    }
}

proof fn word_ends(w: Seq<char>, rest: Seq<char>)
    requires
        without_blanks(w),
        rest.len() == 0 || is_space(rest[0]),
    ensures
        behind_word(w + rest) == rest,
    decreases w.len(),
{
    if w.len() > 0 {
        assert(!is_space(w[0]));
        assert((w + rest).skip(1) =~= w.skip(1) + rest);
        assert forall|i: int| 0 <= i < w.skip(1).len() implies !is_space(
            #[trigger] w.skip(1)[i],
        ) by {
            assert(w.skip(1)[i] == w[i + 1]);
        }
        word_ends(w.skip(1), rest);
    } else {
        assert(w + rest =~= rest);
    }
}

/// The words of a line are what stands between blanks.
pub proof fn words_are_split(c: char, w: Seq<char>, rest: Seq<char>)
    ensures
        words(Seq::empty()).len() == 0,
        is_space(c) ==> words(seq![c] + rest) == words(rest),
        w.len() > 0 && without_blanks(w) && (rest.len() == 0 || is_space(rest[0])) ==> words(
            w + rest,
        ) == seq![w] + words(rest),
{
    if is_space(c) {
        assert((seq![c] + rest).skip(1) =~= rest);
        assert(trim_start(seq![c] + rest) == trim_start(rest));
    }
    if w.len() > 0 && without_blanks(w) && (rest.len() == 0 || is_space(rest[0])) {
        let s = w + rest;
        assert(!is_space(w[0]));
        assert(s[0] == w[0]);
        assert(trim_start(s) == s);
        word_ends(w, rest);
        assert(s.take(s.len() - rest.len()) =~= w);
    }
}

proof fn single_found(a: Seq<char>, c: char, rest: Seq<char>)
    requires
        without(a, c),
    ensures
        first_at(a, seq![c], 0) is None,
        first_at(a + seq![c] + rest, seq![c], 0) == Some(a.len() as int),
{
    let s = a + seq![c] + rest;
    let n = a.len() as int;
    parts_are_found(a, seq![c], 0);
    parts_are_found(s, seq![c], 0);
    if let Some(i) = first_at(a, seq![c], 0) {
        assert(a.subrange(i, i + 1)[0] == c);
        assert(a[i] == c);
    }
    assert(s.subrange(n, n + 1) =~= seq![c]);
    match first_at(s, seq![c], 0) {
        None => {
            assert(false);
        },
        Some(i) => {
            if i < n {
                assert(s.subrange(i, i + 1)[0] == c);
                assert(a[i] == c);
            }
        },
    }
}

/// The colon that parts the port off is the last.
pub proof fn last_colon_is_found(a: Seq<char>, b: Seq<char>)
    requires
        without(b, ':'),
    ensures
        last_colon(b) is None,
        last_colon(a + seq![':'] + b) == Some(a.len() as int),
    decreases b.len(),
{
    let s = a + seq![':'] + b;
    if b.len() > 0 {
        assert(b[b.len() - 1] != ':');
        assert(s.drop_last() =~= a + seq![':'] + b.drop_last());
        last_colon_is_found(a, b.drop_last());
    }
}

/// An authority is a host, or a host with its port; without a port it is the usual one.
pub proof fn authorities_are_read(host: Seq<char>, port: u16, usual: nat)
    requires
        host.len() > 0,
        host[0] != '[',
        without(host, ':'),
    ensures
        authority_parts(host, usual) == Ok::<_, ProbeError>((host, usual)),
        authority_parts(host + seq![':'] + dec_text(port as nat), usual) == Ok::<_, ProbeError>(
            (host, port as nat),
        ),
        authority_parts(seq![':'] + dec_text(port as nat), usual) == Err::<
            (Seq<char>, nat),
            ProbeError,
        >(ProbeError::MissingHost),
        authority_parts(host + seq![':'], usual) == Err::<(Seq<char>, nat), ProbeError>(
            ProbeError::InvalidPort,
        ),
        authority_parts(Seq::empty(), usual) == Err::<(Seq<char>, nat), ProbeError>(
            ProbeError::MissingHost,
        ),
{
    let digits = dec_text(port as nat);
    let named = host + seq![':'] + digits;
    numbers_are_read_back(port as nat);
    assert(without(digits, ':')) by {
        assert forall|i: int| 0 <= i < digits.len() implies #[trigger] digits[i] != ':' by {
            assert('0' <= digits[i] && digits[i] <= '9');
        }
    }
    last_colon_is_found(Seq::empty(), host);
    last_colon_is_found(host, digits);
    last_colon_is_found(Seq::empty(), digits);
    last_colon_is_found(host, Seq::empty());
    assert(named.take(host.len() as int) =~= host);
    assert(named.skip(host.len() as int + 1) =~= digits);
    numbers_are_digits(digits, 65535);
    numbers_are_digits(Seq::empty(), 65535);
    assert(digits[0] != '+') by {
        assert('0' <= digits[0]);
    }
    assert(named[0] == host[0]);
    let bare = seq![':'] + digits;
    assert(Seq::<char>::empty() + seq![':'] + digits =~= bare);
    assert(bare.skip(1) =~= digits);
    assert(bare.take(0) =~= Seq::<char>::empty());
    let open = host + seq![':'];
    assert(host + seq![':'] + Seq::<char>::empty() =~= open);
    assert(open.skip(host.len() as int + 1) =~= Seq::<char>::empty());
    assert(open[0] == host[0]);
}

/// The address of a probe is what stands between the scheme and the first slash, and its usual port
/// is that of the scheme. The path starts with that slash, and is a slash where there is none.
pub proof fn urls_are_read(authority: Seq<char>, tail: Seq<char>)
    requires
        without(authority, '/'),
        tail.len() == 0 || tail[0] == '/',
    ensures
        probe_target("https://"@ + (authority + tail)) == authority_parts(authority, 443),
        probe_target("http://"@ + (authority + tail)) == authority_parts(authority, 80),
        tail.len() > 0 ==> probe_path("https://"@ + (authority + tail)) == tail && probe_path(
            "http://"@ + (authority + tail),
        ) == tail,
        tail.len() == 0 ==> probe_path("https://"@ + (authority + tail)) == seq!['/'] && probe_path(
            "http://"@ + (authority + tail),
        ) == seq!['/'],
{
    schemes_are_cut(authority + tail);
    host_is_cut(authority, tail);
}

proof fn host_is_cut(host: Seq<char>, tail: Seq<char>)
    requires
        without(host, '/'),
        tail.len() == 0 || tail[0] == '/',
    ensures
        before_slash(host + tail) == host,
        tail.len() > 0 ==> first_at(host + tail, seq!['/'], 0) == Some(host.len() as int) && (host
            + tail).skip(host.len() as int) == tail,
        tail.len() == 0 ==> first_at(host + tail, seq!['/'], 0) is None,
{
    if tail.len() > 0 {
        single_found(host, '/', tail.skip(1));
        assert(host + seq!['/'] + tail.skip(1) =~= host + tail);
        assert((host + tail).take(host.len() as int) =~= host);
        assert((host + tail).skip(host.len() as int) =~= tail);
    } else {
        single_found(host, '/', tail);
        assert(host + tail =~= host);
    }
}

/// The scheme is named first, and only two are known: one with port 443 and one with port 80.
pub proof fn schemes_are_cut(rest: Seq<char>)
    ensures
        split_scheme("https://"@ + rest) == Some((443nat, rest)),
        split_scheme("http://"@ + rest) == Some((80nat, rest)),
        rest.len() == 0 || rest[0] != 'h' ==> split_scheme(rest) is None
            && probe_target(rest) == Err::<(Seq<char>, nat), ProbeError>(ProbeError::Scheme),
{
    reveal_strlit("https://");
    reveal_strlit("http://");
    let a = "https://"@ + rest;
    let b = "http://"@ + rest;
    assert(a.take(8) =~= "https://"@);
    assert(a.skip(8) =~= rest);
    assert(b.take(7) =~= "http://"@);
    assert(b.skip(7) =~= rest);
    if b.len() >= 8 && b.take(8) == "https://"@ {
        assert(b.take(8)[4] == 's');
        assert(b[4] == ':');
    }
    if rest.len() >= 8 && rest.take(8) == "https://"@ {
        assert(rest.take(8)[0] == 'h');
    }
    if rest.len() >= 7 && rest.take(7) == "http://"@ {
        assert(rest.take(7)[0] == 'h');
    }
}

/// An IPv6 address stands in brackets, with its port behind them.
pub proof fn bracketed_hosts(host: Seq<char>, port: u16, usual: nat)
    requires
        host.len() > 0,
        without(host, ']'),
    ensures
        authority_parts(seq!['['] + host + seq![']'], usual) == Ok::<
            _,
            ProbeError,
        >((host, usual)),
        authority_parts(
            seq!['['] + host + seq![']', ':'] + dec_text(port as nat),
            usual,
        ) == Ok::<_, ProbeError>((host, port as nat)),
        authority_parts(seq!['['] + host, usual) == Err::<
            (Seq<char>, nat),
            ProbeError,
        >(ProbeError::UnterminatedIpv6),
{
    let digits = dec_text(port as nat);
    numbers_are_read_back(port as nat);
    numbers_are_digits(digits, 65535);
    assert(digits[0] != '+') by {
        assert('0' <= digits[0]);
    }
    let a = seq!['['] + host + seq![']'];
    let b = seq!['['] + host + seq![']', ':'] + digits;
    let c = seq!['['] + host;
    let n = host.len() as int + 1;
    bracket_found(a, n);
    bracket_found(b, n);
    parts_are_found(c, seq![']'], 1);
    if let Some(i) = first_at(c, seq![']'], 1) {
        assert(c.subrange(i, i + 1)[0] == ']');
        assert(host[i - 1] == ']');
    }
    assert(a.subrange(1, n) =~= host);
    assert(b.subrange(1, n) =~= host);
    assert(b.skip(n + 2) =~= digits);
}

proof fn bracket_found(s: Seq<char>, n: int)
    requires
        1 <= n < s.len(),
        s[n] == ']',
        forall|i: int| 1 <= i < n ==> s[i] != ']',
    ensures
        first_at(s, seq![']'], 1) == Some(n),
{
    parts_are_found(s, seq![']'], 1);
    assert(s.subrange(n, n + 1) =~= seq![']']);
    match first_at(s, seq![']'], 1) {
        None => {
            assert(false);
        },
        Some(i) => {
            assert(s.subrange(i, i + 1)[0] == ']');
            assert(s[i] == ']');
        },
    }
}

/// A probe asks for the head of the path at the host, and for the connection to be closed.
pub proof fn probes_ask_for_the_head(host: Seq<char>, path: Seq<char>)
    ensures
        probe_text(host, path) == "HEAD "@ + path + " HTTP/1.1"@ + seq!['\r', '\n'] + "Host: "@
            + host + seq!['\r', '\n'] + "User-Agent: reflex/1.0"@ + seq!['\r', '\n']
            + "Connection: close"@ + seq!['\r', '\n', '\r', '\n'],
{
    reveal_strlit("HEAD ");
    reveal_strlit(" HTTP/1.1\r\nHost: ");
    reveal_strlit("\r\nUser-Agent: reflex/1.0\r\nConnection: close\r\n\r\n");
    reveal_strlit(" HTTP/1.1");
    reveal_strlit("Host: ");
    reveal_strlit("User-Agent: reflex/1.0");
    reveal_strlit("Connection: close");
    assert(" HTTP/1.1\r\nHost: "@ =~= " HTTP/1.1"@ + seq!['\r', '\n'] + "Host: "@);
    assert("\r\nUser-Agent: reflex/1.0\r\nConnection: close\r\n\r\n"@ =~= seq!['\r', '\n']
        + "User-Agent: reflex/1.0"@ + seq!['\r', '\n'] + "Connection: close"@ + seq![
        '\r',
        '\n',
        '\r',
        '\n',
    ]);
    assert(probe_text(host, path) =~= "HEAD "@ + path + " HTTP/1.1"@ + seq!['\r', '\n'] + "Host: "@
        + host + seq!['\r', '\n'] + "User-Agent: reflex/1.0"@ + seq!['\r', '\n']
        + "Connection: close"@ + seq!['\r', '\n', '\r', '\n']);
}

/// The status of an answer is the number behind the first word of its first line; bytes that are no
/// text have none.
pub proof fn answers_give_their_status(
    version: Seq<char>,
    status: u16,
    reason: Seq<char>,
    rest: Seq<char>,
    bytes: Seq<u8>,
)
    requires
        version.len() > 0,
        without_blanks(version),
        without(reason, '\n'),
    ensures
        response_status(
            encode_utf8(
                version + (seq![' '] + (dec_text(status as nat) + (seq![' '] + reason))) + seq!['\n']
                    + rest,
            ),
        ) == status,
        !valid_utf8(bytes) ==> response_status(bytes) == 0,
        http_mark() == ascii("HTTP/"@),
{
    let digits = dec_text(status as nat);
    let last = seq![' '] + reason;
    let line = version + (seq![' '] + (digits + last));
    let all = line + seq!['\n'] + rest;
    numbers_are_read_back(status as nat);
    numbers_are_digits(digits, 65535);
    assert(digits[0] != '+') by {
        assert('0' <= digits[0]);
    }
    assert(without_blanks(digits)) by {
        assert forall|i: int| 0 <= i < digits.len() implies !is_space(#[trigger] digits[i]) by {
            blanks(digits[i]);
        }
    }
    encode_utf8_valid_utf8(all);
    encode_utf8_decode_utf8(all);
    assert(without(line, '\n')) by {
        assert forall|i: int| 0 <= i < line.len() implies #[trigger] line[i] != '\n' by {
            let n = version.len() as int;
            if i < n {
                assert(line[i] == version[i]);
            } else if n < i < n + 1 + digits.len() {
                assert(line[i] == digits[i - n - 1]);
            } else if i > n + 1 + digits.len() {
                assert(line[i] == reason[i - n - 2 - digits.len()]);
            }
        }
    }
    single_found(line, '\n', rest);
    assert(first_line(all) =~= line);
    words_are_split(' ', version, seq![' '] + (digits + last));
    words_are_split(' ', version, digits + last);
    words_are_split(' ', digits, last);
    let w = words(line);
    assert(w[0] == version);
    assert(w[1] == digits);
    reveal_strlit("HTTP/");
    assert(http_mark() =~= ascii("HTTP/"@));
}

} // verus!
