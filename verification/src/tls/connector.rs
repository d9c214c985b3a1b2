//! How a TLS connection is made: which roots are trusted, and which kind of hello is sent.

use crate::config::{TlsConfig, UtlsFingerprint};
use crate::text::{
    dec_text, hex_byte_text, join_text, joined_text, push_dec, push_hex_byte, text_in, texts,
};
use crate::tls::ech::{resolve_ech_config_list, settings_list, EchError};
use crate::wire::put_bytes;
use vstd::prelude::*;
use vstd::utf8::encode_utf8;

verus! {

/// Strings as `Debug` of the standard library writes a list of them.
pub uninterp spec fn debug_list(items: Seq<Seq<char>>) -> Seq<char>;

/// `format!` with `{:?}` on a list of strings: what it writes depends on the strings alone. How
/// they are escaped is left unsaid.
#[verifier::external_body]
pub(crate) fn format_list(items: &Vec<String>) -> (text: String)
    ensures
        text@ == debug_list(texts(items@)),
{
    format!("{:?}", items)
}

/// The word for a truth value.
pub open spec fn bool_text(b: bool) -> Seq<char> {
    if b {
        "true"@
    } else {
        "false"@
    }
}

fn bool_word(b: bool) -> (s: &'static str)
    ensures
        s@ == bool_text(b),
{
    if b {
        "true"
    } else {
        "false"
    }
}

/// The name of a browser.
pub open spec fn browser_name(fp: UtlsFingerprint) -> Seq<char> {
    match fp {
        UtlsFingerprint::Chrome => "Chrome"@,
        UtlsFingerprint::Firefox => "Firefox"@,
        UtlsFingerprint::Safari => "Safari"@,
        UtlsFingerprint::Ios => "Ios"@,
        UtlsFingerprint::Android => "Android"@,
        UtlsFingerprint::Edge => "Edge"@,
        UtlsFingerprint::Browser360 => "Browser360"@,
        UtlsFingerprint::Qq => "Qq"@,
        UtlsFingerprint::Go => "Go"@,
        UtlsFingerprint::Random => "Random"@,
    }
}

fn browser_word(fp: UtlsFingerprint) -> (s: &'static str)
    ensures
        s@ == browser_name(fp),
{
    match fp {
        UtlsFingerprint::Chrome => "Chrome",
        UtlsFingerprint::Firefox => "Firefox",
        UtlsFingerprint::Safari => "Safari",
        UtlsFingerprint::Ios => "Ios",
        UtlsFingerprint::Android => "Android",
        UtlsFingerprint::Edge => "Edge",
        UtlsFingerprint::Browser360 => "Browser360",
        UtlsFingerprint::Qq => "Qq",
        UtlsFingerprint::Go => "Go",
        UtlsFingerprint::Random => "Random",
    }
}

/// Bytes in hexadecimal.
pub open spec fn hex_dump(bytes: Seq<u8>) -> Seq<char>
    decreases bytes.len(),
{
    if bytes.len() == 0 {
        Seq::empty()
    } else {
        hex_dump(bytes.drop_last()) + hex_byte_text(bytes.last())
    }
}

/// How many bytes of a certificate go into the text.
pub const HEAD_LEN: usize = 32;

/// The start of a certificate.
pub open spec fn cert_head(cert: Seq<u8>) -> Seq<u8> {
    if cert.len() < HEAD_LEN {
        cert
    } else {
        cert.take(HEAD_LEN as int)
    }
}

/// The certificates of settings: how many, how long the first one is, and how it starts.
pub open spec fn certificate_part(certificate: Seq<String>) -> Seq<char> {
    let first = encode_utf8(certificate[0]@);
    "cert_inline_count="@ + dec_text(certificate.len()) + "_len0="@ + dec_text(first.len())
        + "_head0="@ + hex_dump(cert_head(first))
}

/// The parts of the text that stands for settings.
pub open spec fn fingerprint_parts(tls: TlsConfig) -> Seq<Seq<char>> {
    let base = seq![
        "insecure="@ + bool_text(tls.insecure),
        "alpn="@ + debug_list(texts(tls.alpn@)),
    ];
    let ca = match tls.ca_path {
        Some(p) => seq!["ca_path="@ + p@],
        None => Seq::empty(),
    };
    let certs = if tls.certificate@.len() > 0 {
        seq![certificate_part(tls.certificate@)]
    } else {
        Seq::empty()
    };
    let utls = match tls.utls {
        Some(u) => seq![
            "utls="@ + browser_name(u.fingerprint) + "_enabled="@ + bool_text(u.enabled),
        ],
        None => Seq::empty(),
    };
    let ech = match tls.ech {
        Some(e) => seq!["ech_enabled="@ + bool_text(e.enabled)],
        None => Seq::empty(),
    };
    base + ca + certs + utls + ech
}

fn write_certificates(certificate: &[String]) -> (part: String)
    requires
        certificate@.len() > 0,
    ensures
        part@ == certificate_part(certificate@),
{
    let first: &[u8] = certificate[0].as_str().as_bytes();
    let mut part: String = "cert_inline_count=".to_string();
    push_dec(&mut part, certificate.len() as u64);
    part.append("_len0=");
    push_dec(&mut part, first.len() as u64);
    part.append("_head0=");
    let n: usize = if first.len() < HEAD_LEN {
        first.len()
    } else {
        HEAD_LEN
    };
    let ghost head = cert_head(first@);
    let ghost front = part@;
    let mut i: usize = 0;
    assert(part@ =~= front + hex_dump(head.take(0)));
    while i < n
        invariant
            i <= n,
            n == head.len(),
            n <= first@.len(),
            head == cert_head(first@),
            part@ == front + hex_dump(head.take(i as int)),
        decreases n - i,
    {
        push_hex_byte(&mut part, first[i]);
        assert(head.take(i + 1).drop_last() =~= head.take(i as int));
        assert(part@ =~= front + hex_dump(head.take(i + 1)));
        i += 1;
    }
    assert(head.take(i as int) =~= head);
    part
}

/// A text that stands for the settings that a client is made from. Clients are kept by it.
pub fn config_fingerprint(tls: &TlsConfig) -> (text: String)
    ensures
        text@ == joined_text(fingerprint_parts(*tls), "|"@),
{
    let mut parts: Vec<String> = Vec::new();
    let mut insecure: String = "insecure=".to_string();
    insecure.append(bool_word(tls.insecure));
    parts.push(insecure);
    let mut alpn: String = "alpn=".to_string();
    alpn.append(&format_list(&tls.alpn));
    parts.push(alpn);
    if let Some(p) = &tls.ca_path {
        let mut ca: String = "ca_path=".to_string();
        ca.append(p);
        parts.push(ca);
    }
    if tls.certificate.len() > 0 {
        parts.push(write_certificates(&tls.certificate));
    }
    if let Some(u) = &tls.utls {
        let mut utls: String = "utls=".to_string();
        utls.append(browser_word(u.fingerprint));
        utls.append("_enabled=");
        utls.append(bool_word(u.enabled));
        parts.push(utls);
    }
    if let Some(e) = &tls.ech {
        let mut ech: String = "ech_enabled=".to_string();
        ech.append(bool_word(e.enabled));
        parts.push(ech);
    }
    assert(texts(parts@) =~= fingerprint_parts(*tls));
    join_text(&parts, "|")
}

proof fn joined_starts(parts: Seq<Seq<char>>, sep: Seq<char>)
    requires
        parts.len() > 0,
    ensures
        joined_text(parts, sep).len() >= parts[0].len(),
        joined_text(parts, sep).take(parts[0].len() as int) == parts[0],
    decreases parts.len(),
{
    if parts.len() == 1 {
        assert(parts[0].take(parts[0].len() as int) =~= parts[0]);
    } else {
        let front = parts.drop_last();
        joined_starts(front, sep);
        assert(joined_text(parts, sep).take(parts[0].len() as int) =~= joined_text(front, sep).take(
            parts[0].len() as int,
        ));
    }
}

/// Settings that check the server and settings that do not never have the same text, so that one
/// client is never kept for both.
pub proof fn fingerprint_tells_insecure(a: TlsConfig, b: TlsConfig)
    requires
        joined_text(fingerprint_parts(a), "|"@) == joined_text(fingerprint_parts(b), "|"@),
    ensures
        a.insecure == b.insecure,
{
    reveal_strlit("insecure=");
    reveal_strlit("true");
    reveal_strlit("false");
    joined_starts(fingerprint_parts(a), "|"@);
    joined_starts(fingerprint_parts(b), "|"@);
    let text = joined_text(fingerprint_parts(a), "|"@);
    let first_a = "insecure="@ + bool_text(a.insecure);
    let first_b = "insecure="@ + bool_text(b.insecure);
    assert(fingerprint_parts(a)[0] == first_a);
    assert(fingerprint_parts(b)[0] == first_b);
    assert(text.take(first_a.len() as int)[9] == first_a[9]);
    assert(text.take(first_b.len() as int)[9] == first_b[9]);
}

// ---- roots ----

/// Where the trusted roots come from.
#[derive(Clone, Debug, PartialEq, Eq)]
pub enum RootSource {
    /// From the settings themselves.
    Inline,
    File(String),
    System,
}

/// Chooses where the trusted roots come from: the settings come before a file, a certificate file
/// before one of an authority, and all before the system.
pub fn root_source(tls: &TlsConfig) -> (source: RootSource)
    ensures
        if tls.certificate@.len() > 0 {
            source is Inline
        } else {
            match (text_in(tls.certificate_path), text_in(tls.ca_path)) {
                (Some(p), _) => source matches RootSource::File(f) && f@ == p,
                (None, Some(p)) => source matches RootSource::File(f) && f@ == p,
                (None, None) => source is System,
            }
        },
{
    if tls.certificate.len() > 0 {
        RootSource::Inline
    } else if let Some(p) = &tls.certificate_path {
        RootSource::File(p.clone())
    } else if let Some(p) = &tls.ca_path {
        RootSource::File(p.clone())
    } else {
        RootSource::System
    }
}

/// The certificates in a PEM text, where it can be read to its end.
pub uninterp spec fn pem_certificates(pem: Seq<u8>) -> Option<Seq<Seq<u8>>>;

/// Lists of bytes as plain values.
pub open spec fn byte_lists(lists: Seq<Vec<u8>>) -> Seq<Seq<u8>> {
    lists.map_values(|l: Vec<u8>| l@)
}

/// `certs` of the `rustls_pemfile` crate, to the end of the text: what it finds depends on the
/// bytes alone. The format is left unsaid.
#[verifier::external_body]
pub(crate) fn read_pem_certs(pem: &[u8]) -> (certs: Option<Vec<Vec<u8>>>)
    ensures
        certs is Some <==> pem_certificates(pem@) is Some,
        certs matches Some(c) ==> pem_certificates(pem@) == Some(byte_lists(c@)),
{
    let mut reader = pem;
    rustls_pemfile::certs(&mut reader).map(|c| c.map(|c| c.to_vec()).ok()).collect()
}

/// The certificates of all the texts in their order, where all can be read.
pub open spec fn all_certificates(pems: Seq<String>) -> Option<Seq<Seq<u8>>>
    decreases pems.len(),
{
    if pems.len() == 0 {
        Some(Seq::empty())
    } else {
        match (
            all_certificates(pems.drop_last()),
            pem_certificates(encode_utf8(pems.last()@)),
        ) {
            (Some(a), Some(b)) => Some(a + b),
            _ => None,
        }
    }
}

proof fn unreadable_stays(pems: Seq<String>, n: int)
    requires
        0 <= n <= pems.len(),
        all_certificates(pems.take(n)) is None,
    ensures
        all_certificates(pems) is None,
    decreases pems.len() - n,
{
    if n < pems.len() {
        assert(pems.take(n + 1).drop_last() =~= pems.take(n));
        unreadable_stays(pems, n + 1);
    } else {
        assert(pems.take(n) =~= pems);
    }
}

/// The roots in the settings; none where one of the texts cannot be read.
pub fn inline_roots(certificate: &[String]) -> (roots: Option<Vec<Vec<u8>>>)
    ensures
        roots is Some <==> all_certificates(certificate@) is Some,
        roots matches Some(r) ==> all_certificates(certificate@) == Some(byte_lists(r@)),
{
    let mut roots: Vec<Vec<u8>> = Vec::new();
    let mut i: usize = 0;
    assert(byte_lists(roots@) =~= Seq::empty());
    while i < certificate.len()
        invariant
            i <= certificate@.len(),
            all_certificates(certificate@.take(i as int)) == Some(byte_lists(roots@)),
        decreases certificate@.len() - i,
    {
        assert(certificate@.take(i + 1).drop_last() =~= certificate@.take(i as int));
        assert(certificate@.take(i + 1).last() == certificate@[i as int]);
        match read_pem_certs(certificate[i].as_str().as_bytes()) {
            Some(certs) => {
                let mut certs: Vec<Vec<u8>> = certs;
                let ghost a = byte_lists(roots@);
                let ghost b = byte_lists(certs@);
                roots.append(&mut certs);
                assert(byte_lists(roots@) =~= a + b);
            },
            None => {
                proof {
                    unreadable_stays(certificate@, i + 1);
                }
                return None;
            },
        }
        i += 1;
    }
    assert(certificate@.take(i as int) =~= certificate@);
    Some(roots)
}

/// The roots in the text of a file.
pub fn file_roots(pem: &[u8]) -> (roots: Option<Vec<Vec<u8>>>)
    ensures
        roots is Some <==> pem_certificates(pem@) is Some,
        roots matches Some(r) ==> pem_certificates(pem@) == Some(byte_lists(r@)),
{
    read_pem_certs(pem)
}

/// The protocols that a client offers, as bytes.
pub fn alpn_protocols(alpn: &[String]) -> (out: Vec<Vec<u8>>)
    ensures
        byte_lists(out@) == texts(alpn@).map_values(|t: Seq<char>| encode_utf8(t)),
{
    let mut out: Vec<Vec<u8>> = Vec::new();
    let mut i: usize = 0;
    while i < alpn.len()
        invariant
            i <= alpn@.len(),
            out@.len() == i,
            forall|j: int| 0 <= j < i ==> (#[trigger] out@[j])@ == encode_utf8(alpn@[j]@),
        decreases alpn@.len() - i,
    {
        let mut name: Vec<u8> = Vec::new();
        put_bytes(&mut name, alpn[i].as_str().as_bytes());
        assert(name@ =~= encode_utf8(alpn@[i as int]@));
        out.push(name);
        i += 1;
    }
    assert(byte_lists(out@) =~= texts(alpn@).map_values(|t: Seq<char>| encode_utf8(t)));
    out
}

// ---- the kind of hello ----

/// How a TLS connection is made.
#[derive(Debug)]
pub enum TlsMode {
    /// With an encrypted hello, for this list of keys.
    Ech(Vec<u8>),
    /// With the hello of a browser.
    Utls(UtlsFingerprint),
    Plain,
}

/// Why no TLS connection is made.
#[derive(Clone, Copy, Debug, PartialEq, Eq, Structural)]
pub enum TlsModeError {
    Ech(EchError),
    /// An encrypted hello is wanted, but there is no list of keys.
    EchNotConfigured,
}

/// Whether an encrypted hello is wanted.
pub open spec fn wants_ech(tls: TlsConfig) -> bool {
    tls.ech matches Some(e) && e.enabled
}

/// Whether the hello of a browser is wanted.
pub open spec fn wants_utls(tls: TlsConfig) -> bool {
    tls.utls matches Some(u) && u.enabled
}

/// Chooses how a TLS connection is made: an encrypted hello comes before that of a browser.
/// `file` is the text of the file with the list of keys, where the settings name one that can be
/// read.
pub fn tls_mode(tls: &TlsConfig, file: Option<&str>) -> (res: Result<TlsMode, TlsModeError>)
    ensures
        if wants_ech(*tls) {
            match (
                res,
                settings_list(
                    tls.ech->Some_0,
                    match file {
                        Some(t) => Some(t@),
                        None => None,
                    },
                ),
            ) {
                (Ok(TlsMode::Ech(list)), Ok(Some(bytes))) => list@ == bytes,
                (Err(TlsModeError::EchNotConfigured), Ok(None)) => true,
                (Err(TlsModeError::Ech(e)), Err(f)) => e == f,
                _ => false,
            }
        } else if wants_utls(*tls) {
            res == Ok::<TlsMode, TlsModeError>(TlsMode::Utls(tls.utls->Some_0.fingerprint))
        } else {
            res == Ok::<TlsMode, TlsModeError>(TlsMode::Plain)
        },
{
    if let Some(options) = &tls.ech {
        if options.enabled {
            return match resolve_ech_config_list(options, file) {
                Ok(Some(list)) => Ok(TlsMode::Ech(list)),
                Ok(None) => Err(TlsModeError::EchNotConfigured),
                Err(e) => Err(TlsModeError::Ech(e)),
            };
        }
    }
    if let Some(u) = &tls.utls {
        if u.enabled {
            return Ok(TlsMode::Utls(u.fingerprint));
        }
    }
    Ok(TlsMode::Plain)
}

} // verus!
