//! The request by which the delay of a node is measured.

use crate::text::{
    chars_eq, chars_of, find_text, first_at, parse_number, parsed_number, text_of, texts, utf8_text,
};
use crate::words::{first_line, line_end, split_words, words};
use crate::wire::bytes_eq;
use vstd::prelude::*;
use vstd::utf8::{decode_utf8, valid_utf8};

verus! {

/// What is wrong with the address of a probe, or with the answer to it.
#[derive(Clone, Copy, Debug, PartialEq, Eq, Structural)]
pub enum ProbeError {
    /// The address starts with neither `http://` nor `https://`.
    Scheme,
    MissingHost,
    /// There is no bracket at the end of an IPv6 address.
    UnterminatedIpv6,
    InvalidPort,
    EmptyResponse,
    NotHttp,
    /// The answer has a status that is not good.
    Unhealthy(u16),
}

/// What follows a prefix.
pub open spec fn after_prefix(s: Seq<char>, prefix: Seq<char>) -> Option<Seq<char>> {
    if s.len() >= prefix.len() && s.take(prefix.len() as int) == prefix {
        Some(s.skip(prefix.len() as int))
    } else {
        None
    }
}

/// The usual port of an address, and what follows the scheme.
pub open spec fn split_scheme(url: Seq<char>) -> Option<(nat, Seq<char>)> {
    match after_prefix(url, "https://"@) {
        Some(rest) => Some((443, rest)),
        None => match after_prefix(url, "http://"@) {
            Some(rest) => Some((80, rest)),
            None => None,
        },
    }
}

/// `s` up to the first slash.
pub open spec fn before_slash(s: Seq<char>) -> Seq<char> {
    match first_at(s, seq!['/'], 0) {
        Some(i) => s.take(i),
        None => s,
    }
}

/// Where the last colon stands.
pub open spec fn last_colon(s: Seq<char>) -> Option<int>
    decreases s.len(),
{
    if s.len() == 0 {
        None
    } else if s.last() == ':' {
        Some(s.len() - 1)
    } else {
        last_colon(s.drop_last())
    }
}

/// A host and a port, where both are good.
pub open spec fn host_and_port(host: Seq<char>, port: Option<nat>) -> Result<
    (Seq<char>, nat),
    ProbeError,
> {
    match port {
        None => Err(ProbeError::InvalidPort),
        Some(p) => if host.len() == 0 {
            Err(ProbeError::MissingHost)
        } else {
            Ok((host, p))
        },
    }
}

/// The host and the port of an authority.
pub open spec fn authority_parts(a: Seq<char>, usual: nat) -> Result<(Seq<char>, nat), ProbeError> {
    if a.len() == 0 {
        Err(ProbeError::MissingHost)
    } else if a[0] == '[' {
        match first_at(a, seq![']'], 1) {
            None => Err(ProbeError::UnterminatedIpv6),
            Some(i) => host_and_port(
                a.subrange(1, i),
                if i + 1 < a.len() && a[i + 1] == ':' {
                    parsed_number(a.skip(i + 2), 65535)
                } else {
                    Some(usual)
                },
            ),
        }
    } else {
        match last_colon(a) {
            Some(i) => host_and_port(a.take(i), parsed_number(a.skip(i + 1), 65535)),
            None => Ok((a, usual)),
        }
    }
}

/// The host and the port of an address.
pub open spec fn probe_target(url: Seq<char>) -> Result<(Seq<char>, nat), ProbeError> {
    match split_scheme(url) {
        None => Err(ProbeError::Scheme),
        Some((usual, rest)) => authority_parts(before_slash(rest), usual),
    }
}

/// The path of an address with its query, at least a slash.
pub open spec fn probe_path(url: Seq<char>) -> Seq<char> {
    let rest = match split_scheme(url) {
        Some((_, rest)) => rest,
        None => url,
    };
    match first_at(rest, seq!['/'], 0) {
        Some(i) => rest.skip(i),
        None => seq!['/'],
    }
}

fn starts_with(s: &[char], prefix: &[char]) -> (yes: bool)
    ensures
        yes == (after_prefix(s@, prefix@) is Some),
{
    if s.len() < prefix.len() {
        return false;
    }
    let front: &[char] = &s[0..prefix.len()];
    assert(front@ =~= s@.take(prefix@.len() as int));
    chars_eq(front, prefix)
}

/// Where the part behind the scheme starts, with the usual port.
fn scheme_end(url: &[char]) -> (res: Option<(u16, usize)>)
    ensures
        match (res, split_scheme(url@)) {
            (Some((p, i)), Some((q, rest))) => p as nat == q && i <= url@.len() && rest == url@.skip(
                i as int,
            ),
            (None, None) => true,
            _ => false,
        },
{
    let https: Vec<char> = chars_of("https://");
    if starts_with(url, &https) {
        return Some((443, https.len()));
    }
    let http: Vec<char> = chars_of("http://");
    if starts_with(url, &http) {
        return Some((80, http.len()));
    }
    None
}

fn find_last_colon(s: &[char]) -> (at: Option<usize>)
    ensures
        match (at, last_colon(s@)) {
            (Some(a), Some(b)) => a == b && a < s@.len(),
            (None, None) => true,
            _ => false,
        },
{
    let mut n: usize = s.len();
    assert(s@.take(n as int) =~= s@);
    while n > 0
        invariant
            n <= s@.len(),
            last_colon(s@) == last_colon(s@.take(n as int)),
        decreases n,
    {
        assert(s@.take(n as int).drop_last() =~= s@.take(n - 1));
        assert(s@.take(n as int).last() == s@[n - 1]);
        if s[n - 1] == ':' {
            return Some(n - 1);
        }
        n -= 1;
    }
    None
}

fn read_authority(a: &[char], usual: u16) -> (res: Result<(String, u16), ProbeError>)
    ensures
        match (res, authority_parts(a@, usual as nat)) {
            (Ok((h, p)), Ok((g, q))) => h@ == g && p as nat == q,
            (Err(e), Err(f)) => e == f,
            _ => false,
        },
{
    if a.len() == 0 {
        return Err(ProbeError::MissingHost);
    }
    let (host, port): (String, Option<u64>) = if a[0] == '[' {
        let bracket: [char; 1] = [']'];
        assert(bracket@ =~= seq![']']);
        match find_text(a, &bracket, 1) {
            None => {
                return Err(ProbeError::UnterminatedIpv6);
            },
            Some(i) => {
                let port: Option<u64> = if a.len() - i > 1 && a[i + 1] == ':' {
                    let text: String = text_of(a, i + 2, a.len());
                    assert(text@ =~= a@.skip(i + 2));
                    parse_number(&text, 65535)
                } else {
                    Some(usual as u64)
                };
                (text_of(a, 1, i), port)
            },
        }
    } else {
        match find_last_colon(a) {
            None => {
                let host: String = text_of(a, 0, a.len());
                assert(host@ =~= a@);
                return Ok((host, usual));
            },
            Some(i) => {
                let text: String = text_of(a, i + 1, a.len());
                assert(text@ =~= a@.skip(i + 1));
                let host: String = text_of(a, 0, i);
                assert(host@ =~= a@.take(i as int));
                (host, parse_number(&text, 65535))
            },
        }
    };
    match port {
        None => Err(ProbeError::InvalidPort),
        Some(p) => {
            if host.as_str().unicode_len() == 0 {
                return Err(ProbeError::MissingHost);
            }
            Ok((host, p as u16))
        },
    }
}

/// Reads the host and the port of an address.
pub fn parse_probe_url(url: &str) -> (res: Result<(String, u16), ProbeError>)
    ensures
        match (res, probe_target(url@)) {
            (Ok((h, p)), Ok((g, q))) => h@ == g && p as nat == q,
            (Err(e), Err(f)) => e == f,
            _ => false,
        },
{
    let chars: Vec<char> = chars_of(url);
    let (usual, from): (u16, usize) = match scheme_end(&chars) {
        Some(x) => x,
        None => {
            return Err(ProbeError::Scheme);
        },
    };
    let rest: &[char] = &chars[from..chars.len()];
    assert(rest@ =~= chars@.skip(from as int));
    let slash: [char; 1] = ['/'];
    assert(slash@ =~= seq!['/']);
    let end: usize = match find_text(rest, &slash, 0) {
        Some(i) => i,
        None => rest.len(),
    };
    let authority: &[char] = &rest[0..end];
    assert(authority@ =~= before_slash(rest@));
    read_authority(authority, usual)
}

/// Reads the path of an address.
pub fn parse_probe_path(url: &str) -> (path: String)
    ensures
        path@ == probe_path(url@),
{
    let chars: Vec<char> = chars_of(url);
    let from: usize = match scheme_end(&chars) {
        Some((_, i)) => i,
        None => 0,
    };
    let rest: &[char] = &chars[from..chars.len()];
    assert(rest@ =~= chars@.skip(from as int));
    assert(chars@.skip(0) =~= chars@);
    let slash: [char; 1] = ['/'];
    assert(slash@ =~= seq!['/']);
    match find_text(rest, &slash, 0) {
        Some(i) => {
            let path: String = text_of(rest, i, rest.len());
            assert(path@ =~= rest@.skip(i as int));
            path
        },
        None => {
            let mut path: String = String::new();
            path.push('/');
            assert(path@ =~= seq!['/']);
            path
        },
    }
}

/// The request of a probe.
pub open spec fn probe_text(host: Seq<char>, path: Seq<char>) -> Seq<char> {
    "HEAD "@ + path + " HTTP/1.1\r\nHost: "@ + host
        + "\r\nUser-Agent: reflex/1.0\r\nConnection: close\r\n\r\n"@
}

/// Makes the request of a probe.
pub fn probe_request(host: &str, path: &str) -> (req: String)
    ensures
        req@ == probe_text(host@, path@),
{
    let mut req: String = "HEAD ".to_string();
    req.append(path);
    req.append(" HTTP/1.1\r\nHost: ");
    req.append(host);
    req.append("\r\nUser-Agent: reflex/1.0\r\nConnection: close\r\n\r\n");
    req
}

/// The status that an answer gives, zero where it gives none.
pub open spec fn response_status(bytes: Seq<u8>) -> nat {
    if !valid_utf8(bytes) {
        0
    } else {
        let parts = words(first_line(decode_utf8(bytes)));
        match parsed_number(parts[1], 65535) {
            Some(n) if parts.len() > 1 => n,
            _ => 0,
        }
    }
}

/// The first bytes of every answer.
pub open spec fn http_mark() -> Seq<u8> {
    seq![0x48u8, 0x54, 0x54, 0x50, 0x2f]
}

fn read_status(bytes: &[u8]) -> (code: u16)
    ensures
        code as nat == response_status(bytes@),
{
    let text: String = match utf8_text(bytes) {
        Some(t) => t,
        None => {
            return 0;
        },
    };
    let chars: Vec<char> = chars_of(&text);
    let end: usize = line_end(&chars, 0);
    let line: &[char] = &chars[0..end];
    assert(chars@.skip(0) =~= chars@);
    assert(line@ =~= first_line(chars@));
    let parts: Vec<String> = split_words(line);
    if parts.len() < 2 {
        return 0;
    }
    assert(texts(parts@)[1] == parts@[1]@);
    match parse_number(&parts[1], 65535) {
        Some(n) => n as u16,
        None => 0,
    }
}

/// Judges the answer to a probe by its first bytes: good are the statuses from 200 to 399.
pub fn judge_response(bytes: &[u8]) -> (res: Result<(), ProbeError>)
    ensures
        res == if bytes@.len() == 0 {
            Err::<(), ProbeError>(ProbeError::EmptyResponse)
        } else if bytes@.len() < 5 || bytes@.take(5) != http_mark() {
            Err::<(), ProbeError>(ProbeError::NotHttp)
        } else if 200 <= response_status(bytes@) < 400 {
            Ok::<(), ProbeError>(())
        } else {
            Err::<(), ProbeError>(ProbeError::Unhealthy(response_status(bytes@) as u16))
        },
{
    if bytes.len() == 0 {
        return Err(ProbeError::EmptyResponse);
    }
    let mark: [u8; 5] = [0x48, 0x54, 0x54, 0x50, 0x2f];
    assert(mark@ =~= http_mark());
    if bytes.len() < 5 {
        return Err(ProbeError::NotHttp);
    }
    let front: &[u8] = &bytes[0..5];
    assert(front@ =~= bytes@.take(5));
    if !bytes_eq(front, &mark) {
        return Err(ProbeError::NotHttp);
    }
    let code: u16 = read_status(bytes);
    if 200 <= code && code < 400 {
        Ok(())
    } else {
        Err(ProbeError::Unhealthy(code))
    }
}

} // verus!
