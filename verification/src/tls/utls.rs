//! Imitation of the TLS hello of a browser.
//!
//! The TLS library makes a hello of its own. The first record it writes is replaced by the
//! imitation, into which the library's own key share is copied so that both sides agree on
//! the keys.

use crate::config::UtlsFingerprint;
use crate::random::{random_below, random_bytes};
use crate::text::texts;
use crate::tls::client_hello::{
    alpn_data, ext, key_share_data, key_share_ext, protocol_list, push_ext, server_name_data,
    server_name_ext, u16_list_data, u16_list_ext,
};
use crate::tls::keys::zeros;
use crate::wire::{
    array32, be_bytes, be_value, copy_range, put_bytes, put_len16, put_len24, read_u16, read_u24,
};
use vstd::prelude::*;
use vstd::utf8::encode_utf8;

verus! {

pub const TLS_CONTENT_HANDSHAKE: u8 = 0x16;

/// The hellos that can be imitated.
#[derive(Clone, Copy, Debug, PartialEq, Eq, Structural)]
pub enum FpKind {
    Chrome,
    Firefox,
    Safari,
    Edge,
    Random,
}

/// The parts of a hello that are left to chance.
pub struct HelloPicks {
    pub random: Vec<u8>,
    pub session_id: Vec<u8>,
    pub key: Vec<u8>,
    /// Which reserved value stands among the cipher suites.
    pub cipher_grease: u16,
    /// Which reserved value stands among the extensions.
    pub ext_grease: u16,
}

/// A reserved value (RFC 8701).
pub open spec fn grease(i: nat) -> nat {
    0x0a0a + i * 0x1010
}

/// The hello that a setting asks for.
pub open spec fn fingerprint_kind(fp: UtlsFingerprint) -> FpKind {
    match fp {
        UtlsFingerprint::Firefox => FpKind::Firefox,
        UtlsFingerprint::Safari | UtlsFingerprint::Ios => FpKind::Safari,
        UtlsFingerprint::Edge => FpKind::Edge,
        UtlsFingerprint::Random => FpKind::Random,
        _ => FpKind::Chrome,
    }
}

/// The cipher suites of a hello.
pub open spec fn suites_of(fp: FpKind, pick: nat) -> Seq<u16> {
    match fp {
        FpKind::Firefox => seq![
            0x1301u16, 0x1302, 0x1303, 0xc02b, 0xc02f, 0xc02c, 0xc030, 0xcca9, 0xcca8, 0xc009,
            0xc00a, 0xc013, 0xc014, 0x002f, 0x0035,
        ],
        FpKind::Safari => seq![
            0x1301u16, 0x1302, 0x1303, 0xc02c, 0xc02b, 0xc030, 0xc02f, 0xcca9, 0xcca8, 0xc024,
            0xc023, 0xc028, 0xc027, 0xc00a, 0xc009, 0xc014, 0xc013, 0x009d, 0x009c, 0x003d, 0x003c,
            0x0035, 0x002f,
        ],
        _ => seq![
            grease(pick) as u16, 0x1301, 0x1302, 0x1303, 0xc02b, 0xc02f, 0xc02c, 0xc030, 0xcca9,
            0xcca8, 0xc013, 0xc014, 0x002f, 0x0035,
        ],
    }
}

/// Whether the hello is one of the Chromium family.
pub open spec fn chromium(fp: FpKind) -> bool {
    fp == FpKind::Chrome || fp == FpKind::Edge
}

/// The key exchange groups of a hello.
pub open spec fn groups_of(fp: FpKind) -> Seq<u16> {
    if chromium(fp) {
        seq![0x001du16, 0x0017, 0x0018]
    } else if fp == FpKind::Firefox {
        seq![0x001du16, 0x0017, 0x0018, 0x0019]
    } else {
        seq![0x001du16, 0x0017, 0x001e, 0x0018, 0x0019]
    }
}

/// The signature algorithms of a hello.
pub open spec fn algorithms_of(fp: FpKind) -> Seq<u16> {
    if fp == FpKind::Firefox {
        seq![0x0403u16, 0x0804, 0x0401, 0x0503, 0x0805, 0x0501, 0x0806, 0x0601, 0x0201]
    } else {
        seq![0x0403u16, 0x0804, 0x0401, 0x0503, 0x0805, 0x0501, 0x0806, 0x0601]
    }
}

/// The protocols of a hello: the configured ones, or those of a browser.
pub open spec fn protocols_of(alpn: Seq<String>) -> Seq<Seq<char>> {
    if alpn.len() > 0 {
        texts(alpn)
    } else {
        seq!["h2"@, "http/1.1"@]
    }
}

/// The extensions in front of the protocols.
pub open spec fn first_exts(fp: FpKind, name: Seq<u8>, pick: nat) -> Seq<u8> {
    (if chromium(fp) {
        ext(grease(pick) as u16, Seq::empty())
    } else {
        Seq::empty()
    }) + ext(0, server_name_data(name)) + ext(0x17, Seq::empty()) + ext(0xff01, seq![0u8]) + ext(
        0x0a,
        u16_list_data(groups_of(fp)),
    ) + ext(0x0b, seq![1u8, 0u8]) + ext(0x23, Seq::empty())
}

/// The extensions from the protocols to the versions.
pub open spec fn middle_exts(fp: FpKind, alpn: Seq<Seq<char>>, key: Seq<u8>) -> Seq<u8> {
    ext(0x10, alpn_data(alpn)) + ext(5, seq![1u8, 0u8, 0u8, 0u8, 0u8]) + ext(
        0x0d,
        u16_list_data(algorithms_of(fp)),
    ) + ext(0x12, Seq::empty()) + ext(0x33, key_share_data(key)) + ext(0x2d, seq![1u8, 1u8]) + ext(
        0x2b,
        seq![4u8, 3u8, 4u8, 3u8, 3u8],
    )
}

/// The extensions that only Chromium sends, but for the padding.
pub open spec fn last_exts(fp: FpKind) -> Seq<u8> {
    if chromium(fp) {
        ext(0x1b, seq![2u8, 0u8, 2u8]) + ext(0x4469, seq![0u8, 3u8, 2u8, 0x68u8, 0x32u8])
    } else {
        Seq::empty()
    }
}

/// The padding that fills the extensions of Chromium up to 512 bytes.
pub open spec fn padding_ext(fp: FpKind, so_far: nat) -> Seq<u8> {
    if chromium(fp) && so_far < 508 {
        ext(0x15, zeros((508 - so_far) as nat))
    } else {
        Seq::empty()
    }
}

/// The extensions of a hello.
pub open spec fn utls_exts(
    fp: FpKind,
    name: Seq<u8>,
    alpn: Seq<String>,
    key: Seq<u8>,
    pick: nat,
) -> Seq<u8> {
    let exts = first_exts(fp, name, pick) + middle_exts(fp, protocols_of(alpn), key) + last_exts(
        fp,
    );
    exts + padding_ext(fp, exts.len())
}

/// The body of a hello.
pub open spec fn utls_body(
    fp: FpKind,
    name: Seq<u8>,
    alpn: Seq<String>,
    picks: HelloPicks,
) -> Seq<u8> {
    body_of(
        picks.random@,
        picks.session_id@,
        u16_list_data(suites_of(fp, picks.cipher_grease as nat)),
        utls_exts(fp, name, alpn, picks.key@, picks.ext_grease as nat),
    )
}

/// The body of a hello out of its parts.
pub open spec fn body_of(
    random: Seq<u8>,
    session_id: Seq<u8>,
    suites: Seq<u8>,
    exts: Seq<u8>,
) -> Seq<u8> {
    seq![3u8, 3u8] + random + seq![32u8] + session_id + suites + seq![1u8, 0u8] + be_bytes(
        exts.len(),
        2,
    ) + exts
}

/// A handshake record with a hello of the given body.
pub open spec fn hello_record(body: Seq<u8>) -> Seq<u8> {
    let message = seq![1u8] + be_bytes(body.len(), 3) + body;
    seq![TLS_CONTENT_HANDSHAKE, 3u8, 1u8] + be_bytes(message.len(), 2) + message
}

impl HelloPicks {
    pub open spec fn wf(&self) -> bool {
        &&& self.random@.len() == 32
        &&& self.session_id@.len() == 32
        &&& self.key@.len() == 32
        &&& self.cipher_grease < 16
        &&& self.ext_grease < 16
    }
}

/// The hello that a setting asks for.
pub fn resolve_fingerprint(fp: &UtlsFingerprint) -> (kind: FpKind)
    ensures
        kind == fingerprint_kind(*fp),
{
    match fp {
        UtlsFingerprint::Chrome | UtlsFingerprint::Android => FpKind::Chrome,
        UtlsFingerprint::Firefox => FpKind::Firefox,
        UtlsFingerprint::Safari | UtlsFingerprint::Ios => FpKind::Safari,
        UtlsFingerprint::Edge => FpKind::Edge,
        UtlsFingerprint::Browser360 | UtlsFingerprint::Qq | UtlsFingerprint::Go => FpKind::Chrome,
        UtlsFingerprint::Random => FpKind::Random,
    }
}

/// The reserved value of the given number.
pub fn grease_at(i: u16) -> (v: u16)
    requires
        i < 16,
    ensures
        v as nat == grease(i as nat),
{
    0x0a0a + i * 0x1010
}

/// Some reserved value.
pub fn grease_value() -> (v: u16)
    ensures
        exists|i: nat| i < 16 && v as nat == #[trigger] grease(i),
{
    let i: u16 = random_below(0, 16) as u16;
    let v: u16 = grease_at(i);
    assert(v as nat == grease(i as nat));
    v
}

/// The cipher suites of a hello.
pub fn cipher_suites_for(fp: FpKind, pick: u16) -> (suites: Vec<u16>)
    requires
        pick < 16,
    ensures
        suites@ == suites_of(fp, pick as nat),
        suites@.len() <= 23,
{
    let suites: Vec<u16> = match fp {
        FpKind::Firefox => vec![
            0x1301u16, 0x1302, 0x1303, 0xc02b, 0xc02f, 0xc02c, 0xc030, 0xcca9, 0xcca8, 0xc009,
            0xc00a, 0xc013, 0xc014, 0x002f, 0x0035,
        ],
        FpKind::Safari => vec![
            0x1301u16, 0x1302, 0x1303, 0xc02c, 0xc02b, 0xc030, 0xc02f, 0xcca9, 0xcca8, 0xc024,
            0xc023, 0xc028, 0xc027, 0xc00a, 0xc009, 0xc014, 0xc013, 0x009d, 0x009c, 0x003d, 0x003c,
            0x0035, 0x002f,
        ],
        FpKind::Chrome | FpKind::Edge | FpKind::Random => vec![
            grease_at(pick), 0x1301, 0x1302, 0x1303, 0xc02b, 0xc02f, 0xc02c, 0xc030, 0xcca9,
            0xcca8, 0xc013, 0xc014, 0x002f, 0x0035,
        ],
    };
    assert(suites@ =~= suites_of(fp, pick as nat));
    suites
}

fn is_chromium(fp: FpKind) -> (yes: bool)
    ensures
        yes == chromium(fp),
{
    matches!(fp, FpKind::Chrome | FpKind::Edge)
}

fn put_first_exts(out: &mut Vec<u8>, fp: FpKind, sni: &str, pick: u16)
    requires
        pick < 16,
    ensures
        final(out)@ == old(out)@ + first_exts(fp, encode_utf8(sni@), pick as nat),
{
    let empty: Vec<u8> = Vec::new();
    assert(empty@ =~= Seq::empty());
    if is_chromium(fp) {
        append_ext(out, grease_at(pick), &empty);
    }
    append_ext(out, 0, &server_name_ext(sni));
    append_ext(out, 0x17, &empty);
    let zero: [u8; 1] = [0];
    assert(zero@ =~= seq![0u8]);
    append_ext(out, 0xff01, &zero);
    let groups: Vec<u16> = if is_chromium(fp) {
        vec![0x001du16, 0x0017, 0x0018]
    } else {
        match fp {
            FpKind::Firefox => vec![0x001du16, 0x0017, 0x0018, 0x0019],
            _ => vec![0x001du16, 0x0017, 0x001e, 0x0018, 0x0019],
        }
    };
    assert(groups@ =~= groups_of(fp));
    append_ext(out, 0x0a, &u16_list_ext(&groups));
    let formats: [u8; 2] = [1, 0];
    assert(formats@ =~= seq![1u8, 0u8]);
    append_ext(out, 0x0b, &formats);
    append_ext(out, 0x23, &empty);
    assert(out@ =~= old(out)@ + first_exts(fp, encode_utf8(sni@), pick as nat));
}

fn put_middle_exts(out: &mut Vec<u8>, fp: FpKind, alpn: &[String], key: &[u8])
    requires
        key@.len() == 32,
    ensures
        final(out)@ == old(out)@ + middle_exts(fp, protocols_of(alpn@), key@),
{
    let protocols: Vec<u8> = if alpn.len() > 0 {
        protocol_list(alpn)
    } else {
        let mut usual: Vec<String> = Vec::new();
        usual.push("h2".to_string());
        usual.push("http/1.1".to_string());
        assert(texts(usual@) =~= seq!["h2"@, "http/1.1"@]);
        protocol_list(&usual)
    };
    append_ext(out, 0x10, &protocols);
    let status: [u8; 5] = [1, 0, 0, 0, 0];
    assert(status@ =~= seq![1u8, 0u8, 0u8, 0u8, 0u8]);
    append_ext(out, 5, &status);
    let algorithms: Vec<u16> = match fp {
        FpKind::Firefox => vec![
            0x0403u16, 0x0804, 0x0401, 0x0503, 0x0805, 0x0501, 0x0806, 0x0601, 0x0201,
        ],
        _ => vec![0x0403u16, 0x0804, 0x0401, 0x0503, 0x0805, 0x0501, 0x0806, 0x0601],
    };
    assert(algorithms@ =~= algorithms_of(fp));
    append_ext(out, 0x0d, &u16_list_ext(&algorithms));
    let empty: Vec<u8> = Vec::new();
    assert(empty@ =~= Seq::empty());
    append_ext(out, 0x12, &empty);
    append_ext(out, 0x33, &key_share_ext(key));
    let modes: [u8; 2] = [1, 1];
    assert(modes@ =~= seq![1u8, 1u8]);
    append_ext(out, 0x2d, &modes);
    let versions: [u8; 5] = [4, 3, 4, 3, 3];
    assert(versions@ =~= seq![4u8, 3u8, 4u8, 3u8, 3u8]);
    append_ext(out, 0x2b, &versions);
    assert(out@ =~= old(out)@ + middle_exts(fp, protocols_of(alpn@), key@));
}

/// The extensions of a hello.
pub fn build_extensions(sni: &str, fp: FpKind, ks_pub: &[u8], alpn_override: &[String], pick: u16) -> (exts:
    Vec<u8>)
    requires
        ks_pub@.len() == 32,
        pick < 16,
    ensures
        exts@ == utls_exts(fp, encode_utf8(sni@), alpn_override@, ks_pub@, pick as nat),
{
    let mut exts: Vec<u8> = Vec::new();
    put_first_exts(&mut exts, fp, sni, pick);
    put_middle_exts(&mut exts, fp, alpn_override, ks_pub);
    let ghost front = first_exts(fp, encode_utf8(sni@), pick as nat) + middle_exts(
        fp,
        protocols_of(alpn_override@),
        ks_pub@,
    );
    assert(exts@ =~= front);
    if is_chromium(fp) {
        let compress: [u8; 3] = [2, 0, 2];
        assert(compress@ =~= seq![2u8, 0u8, 2u8]);
        append_ext(&mut exts, 0x1b, &compress);
        let alps: [u8; 5] = [0, 3, 2, 0x68, 0x32];
        assert(alps@ =~= seq![0u8, 3u8, 2u8, 0x68u8, 0x32u8]);
        append_ext(&mut exts, 0x4469, &alps);
    }
    assert(exts@ =~= front + last_exts(fp));
    let ghost so_far = exts@;
    if is_chromium(fp) && exts.len() < 508 {
        let mut padding: Vec<u8> = Vec::new();
        let n: usize = 508 - exts.len();
        while padding.len() < n
            invariant
                padding@.len() <= n,
                padding@ =~= zeros(padding@.len()),
            decreases n - padding@.len(),
        {
            padding.push(0);
        }
        assert(padding@ =~= zeros(n as nat));
        append_ext(&mut exts, 0x15, &padding);
    }
    assert(exts@ =~= so_far + padding_ext(fp, so_far.len()));
    exts
}

/// Appends an extension.
pub fn append_ext(buf: &mut Vec<u8>, ext_type: u16, data: &[u8])
    ensures
        final(buf)@ == old(buf)@ + ext(ext_type, data@),
{
    push_ext(buf, ext_type, data);
}

/// The record with the hello that the picks lead to.
pub fn client_hello_from(sni: &str, fp: FpKind, alpn: &[String], picks: &HelloPicks) -> (rec: Vec<u8>)
    requires
        picks.wf(),
    ensures
        rec@ == hello_record(utls_body(fp, encode_utf8(sni@), alpn@, *picks)),
{
    let exts: Vec<u8> = build_extensions(sni, fp, &picks.key, alpn, picks.ext_grease);
    let suites: Vec<u16> = cipher_suites_for(fp, picks.cipher_grease);
    let body: Vec<u8> = join_body(&picks.random, &picks.session_id, &u16_list_ext(&suites), &exts);
    wrap_hello(&body)
}

fn join_body(random: &[u8], session_id: &[u8], suites: &[u8], exts: &[u8]) -> (body: Vec<u8>)
    ensures
        body@ == body_of(random@, session_id@, suites@, exts@),
{
    let mut body: Vec<u8> = vec![3u8, 3u8];
    put_bytes(&mut body, random);
    body.push(32);
    put_bytes(&mut body, session_id);
    put_bytes(&mut body, suites);
    body.push(1);
    body.push(0);
    put_len16(&mut body, exts.len());
    put_bytes(&mut body, exts);
    assert(body@ =~= body_of(random@, session_id@, suites@, exts@));
    body
}

fn wrap_hello(body: &[u8]) -> (rec: Vec<u8>)
    ensures
        rec@ == hello_record(body@),
{
    let mut message: Vec<u8> = vec![1u8];
    put_len24(&mut message, body.len());
    put_bytes(&mut message, body);
    assert(message@ =~= seq![1u8] + be_bytes(body@.len(), 3) + body@);
    let mut rec: Vec<u8> = vec![TLS_CONTENT_HANDSHAKE, 3u8, 1u8];
    put_len16(&mut rec, message.len());
    put_bytes(&mut rec, &message);
    assert(rec@ =~= hello_record(body@));
    rec
}

/// A record with a hello of the given kind, or of any where that is left to chance.
pub fn build_client_hello(sni: &str, fp: FpKind, alpn_override: &[String]) -> (rec: Vec<u8>)
    ensures
        exists|kind: FpKind, picks: HelloPicks|
            kind != FpKind::Random && (fp != FpKind::Random ==> kind == fp) && picks.wf() && rec@
                == hello_record(
                #[trigger] utls_body(kind, encode_utf8(sni@), alpn_override@, picks),
            ),
{
    let kind: FpKind = match fp {
        FpKind::Random => {
            let i: usize = random_below(0, 4);
            if i == 0 {
                FpKind::Chrome
            } else if i == 1 {
                FpKind::Firefox
            } else if i == 2 {
                FpKind::Safari
            } else {
                FpKind::Edge
            }
        },
        other => other,
    };
    let picks = HelloPicks {
        random: random_bytes(32),
        session_id: random_bytes(32),
        key: random_bytes(32),
        cipher_grease: random_below(0, 16) as u16,
        ext_grease: random_below(0, 16) as u16,
    };
    let rec: Vec<u8> = client_hello_from(sni, kind, alpn_override, &picks);
    assert(rec@ == hello_record(utls_body(kind, encode_utf8(sni@), alpn_override@, picks)));
    rec
}

// ---- the key share ----

/// Where the X25519 key stands in a list of shares, from `pos` on. The list ends at `end`.
pub open spec fn share_in_list(d: Seq<u8>, pos: nat, end: nat) -> Option<nat>
    decreases d.len() - pos,
{
    if pos + 4 > end || end > d.len() {
        None
    } else {
        let group = be_value(d.subrange(pos as int, pos as int + 2));
        let len = be_value(d.subrange(pos as int + 2, pos as int + 4));
        if pos + 4 + len > d.len() {
            None
        } else if group == 0x1d && len == 32 {
            Some(pos + 4)
        } else {
            share_in_list(d, pos + 4 + len, end)
        }
    }
}

/// Where the X25519 key stands in the data of a key_share extension.
pub open spec fn share_in_ext(d: Seq<u8>) -> Option<nat> {
    if d.len() < 2 {
        None
    } else {
        let total = be_value(d.subrange(0, 2));
        share_in_list(
            d,
            2,
            if total + 2 <= d.len() {
                total + 2
            } else {
                d.len()
            },
        )
    }
}

/// Where the X25519 key stands in a hello, looking at the extensions from `pos` on. They end
/// at `end`. Only the first key_share extension counts.
pub open spec fn share_in_exts(body: Seq<u8>, pos: nat, end: nat) -> Option<nat>
    decreases body.len() - pos,
{
    if pos + 4 > end || end > body.len() {
        None
    } else {
        let kind = be_value(body.subrange(pos as int, pos as int + 2));
        let len = be_value(body.subrange(pos as int + 2, pos as int + 4));
        if pos + 4 + len > body.len() {
            None
        } else if kind == 0x33 {
            match share_in_ext(body.subrange(pos as int + 4, (pos + 4 + len) as int)) {
                Some(p) => Some(pos + 4 + p),
                None => None,
            }
        } else {
            share_in_exts(body, pos + 4 + len, end)
        }
    }
}

/// Where the extensions of a hello start and end, if its head can be read.
pub open spec fn exts_range(body: Seq<u8>) -> Option<(nat, nat)> {
    if body.len() < 35 {
        None
    } else {
        let a = 35 + body[34] as nat;
        if a + 2 > body.len() {
            None
        } else {
            let b = a + 2 + be_value(body.subrange(a as int, a as int + 2));
            if b >= body.len() {
                None
            } else {
                let c = b + 1 + body[b as int] as nat;
                if c + 2 > body.len() {
                    None
                } else {
                    let d = c + 2 + be_value(body.subrange(c as int, c as int + 2));
                    Some(
                        (
                            c + 2,
                            if d <= body.len() {
                                d
                            } else {
                                body.len()
                            },
                        ),
                    )
                }
            }
        }
    }
}

/// Where the X25519 key stands in a handshake record with a hello.
pub open spec fn share_pos(record: Seq<u8>) -> Option<nat> {
    if record.len() < 9 || record[0] != TLS_CONTENT_HANDSHAKE {
        None
    } else {
        let body = record.skip(9);
        match exts_range(body) {
            None => None,
            Some((from, to)) => match share_in_exts(body, from, to) {
                Some(p) => Some(9 + p),
                None => None,
            },
        }
    }
}

/// The X25519 key in a handshake record that holds a whole hello.
pub open spec fn share_key(record: Seq<u8>) -> Option<Seq<u8>> {
    if record.len() < 9 || record[0] != TLS_CONTENT_HANDSHAKE || record.len() < 9 + be_value(
        record.subrange(6, 9),
    ) {
        None
    } else {
        match share_pos(record) {
            Some(p) => Some(record.subrange(p as int, p as int + 32)),
            None => None,
        }
    }
}

/// `s` with the bytes from `at` on replaced.
pub open spec fn spliced(s: Seq<u8>, at: nat, part: Seq<u8>) -> Seq<u8> {
    s.take(at as int) + part + s.skip((at + part.len()) as int)
}

/// The imitation after the key of the real hello has been copied into it, where both have
/// one.
pub open spec fn patched(fake: Seq<u8>, own: Seq<u8>) -> Seq<u8> {
    match (share_key(own), share_pos(fake)) {
        (Some(key), Some(p)) => spliced(fake, p, key),
        _ => fake,
    }
}

proof fn list_bounds(d: Seq<u8>, pos: nat, end: nat)
    ensures
        share_in_list(d, pos, end) matches Some(p) ==> pos + 4 <= p && p + 32 <= d.len(),
    decreases d.len() - pos,
{
    if pos + 4 <= end && end <= d.len() {
        let len = be_value(d.subrange(pos as int + 2, pos as int + 4));
        if pos + 4 + len <= d.len() {
            list_bounds(d, pos + 4 + len, end);
        }
    }
}

proof fn exts_bounds(body: Seq<u8>, pos: nat, end: nat)
    ensures
        share_in_exts(body, pos, end) matches Some(p) ==> pos + 4 <= p && p + 32 <= body.len(),
    decreases body.len() - pos,
{
    if pos + 4 <= end && end <= body.len() {
        let len = be_value(body.subrange(pos as int + 2, pos as int + 4));
        if pos + 4 + len <= body.len() {
            let d = body.subrange(pos as int + 4, (pos + 4 + len) as int);
            let total = be_value(d.subrange(0, 2));
            list_bounds(
                d,
                2,
                if total + 2 <= d.len() {
                    total + 2
                } else {
                    d.len()
                },
            );
            exts_bounds(body, pos + 4 + len, end);
        }
    }
}

proof fn pos_bounds(record: Seq<u8>)
    ensures
        share_pos(record) matches Some(p) ==> 9 <= p && p + 32 <= record.len(),
{
    if record.len() >= 9 && record[0] == TLS_CONTENT_HANDSHAKE {
        if let Some((from, to)) = exts_range(record.skip(9)) {
            exts_bounds(record.skip(9), from, to);
        }
    }
}

/// The place of the key depends only on what stands in front of it.
proof fn list_stable(d: Seq<u8>, e: Seq<u8>, pos: nat, end: nat, p: nat)
    requires
        d.len() == e.len(),
        share_in_list(d, pos, end) == Some(p),
        forall|i: int| 0 <= i < p ==> d[i] == e[i],
    ensures
        share_in_list(e, pos, end) == Some(p),
    decreases d.len() - pos,
{
    list_bounds(d, pos, end);
    assert(d.subrange(pos as int, pos as int + 2) =~= e.subrange(pos as int, pos as int + 2));
    assert(d.subrange(pos as int + 2, pos as int + 4) =~= e.subrange(
        pos as int + 2,
        pos as int + 4,
    ));
    let group = be_value(d.subrange(pos as int, pos as int + 2));
    let len = be_value(d.subrange(pos as int + 2, pos as int + 4));
    if !(group == 0x1d && len == 32) {
        list_stable(d, e, pos + 4 + len, end, p);
    }
}

proof fn exts_stable(d: Seq<u8>, e: Seq<u8>, pos: nat, end: nat, p: nat)
    requires
        d.len() == e.len(),
        share_in_exts(d, pos, end) == Some(p),
        forall|i: int| 0 <= i < p ==> d[i] == e[i],
    ensures
        share_in_exts(e, pos, end) == Some(p),
    decreases d.len() - pos,
{
    exts_bounds(d, pos, end);
    assert(d.subrange(pos as int, pos as int + 2) =~= e.subrange(pos as int, pos as int + 2));
    assert(d.subrange(pos as int + 2, pos as int + 4) =~= e.subrange(
        pos as int + 2,
        pos as int + 4,
    ));
    let kind = be_value(d.subrange(pos as int, pos as int + 2));
    let len = be_value(d.subrange(pos as int + 2, pos as int + 4));
    if kind == 0x33 {
        let x = d.subrange(pos as int + 4, (pos + 4 + len) as int);
        let y = e.subrange(pos as int + 4, (pos + 4 + len) as int);
        let q = (p - pos - 4) as nat;
        assert(share_in_ext(x) == Some(q));
        let total = be_value(x.subrange(0, 2));
        let stop = if total + 2 <= x.len() {
            total + 2
        } else {
            x.len()
        };
        list_bounds(x, 2, stop);
        assert(x.subrange(0, 2) =~= y.subrange(0, 2));
        assert forall|i: int| 0 <= i < q implies x[i] == y[i] by {
            assert(x[i] == d[pos + 4 + i]);
            assert(y[i] == e[pos + 4 + i]);
        }
        list_stable(x, y, 2, stop, q);
    } else {
        exts_stable(d, e, pos + 4 + len, end, p);
    }
}

proof fn range_stable(d: Seq<u8>, e: Seq<u8>, p: nat)
    requires
        d.len() == e.len(),
        exts_range(d) matches Some((from, _)) && from <= p,
        forall|i: int| 0 <= i < p ==> d[i] == e[i],
    ensures
        exts_range(e) == exts_range(d),
{
    let a = 35 + d[34] as nat;
    assert(d.subrange(a as int, a as int + 2) =~= e.subrange(a as int, a as int + 2));
    let b = a + 2 + be_value(d.subrange(a as int, a as int + 2));
    let c = b + 1 + d[b as int] as nat;
    assert(d.subrange(c as int, c as int + 2) =~= e.subrange(c as int, c as int + 2));
}

/// The patched imitation carries the key of the real hello, at the place where its own stood,
/// and is otherwise unchanged.
pub proof fn patch_copies_the_key(fake: Seq<u8>, own: Seq<u8>)
    requires
        share_key(own) is Some,
        share_key(fake) is Some,
    ensures
        share_key(patched(fake, own)) == share_key(own),
        patched(fake, own).len() == fake.len(),
        share_pos(fake) matches Some(p) && share_pos(patched(fake, own)) == Some(p) && (forall|
            i: int,
        |
            0 <= i < fake.len() && !(p <= i < p + 32) ==> #[trigger] patched(fake, own)[i]
                == fake[i]),
{
    pos_bounds(fake);
    pos_bounds(own);
    let p = share_pos(fake).unwrap();
    let key = share_key(own).unwrap();
    let out = patched(fake, own);
    assert(key.len() == 32);
    assert(out.len() == fake.len());
    assert forall|i: int| 0 <= i < fake.len() && !(p <= i < p + 32) implies #[trigger] out[i]
        == fake[i] by {}
    let d = fake.skip(9);
    let e = out.skip(9);
    let (from, to) = exts_range(d).unwrap();
    exts_bounds(d, from, to);
    let q = (p - 9) as nat;
    assert forall|i: int| 0 <= i < q implies d[i] == e[i] by {
        assert(d[i] == fake[i + 9]);
        assert(e[i] == out[i + 9]);
    }
    range_stable(d, e, q);
    exts_stable(d, e, from, to, q);
    assert(out.subrange(6, 9) =~= fake.subrange(6, 9));
    assert(out.subrange(p as int, p as int + 32) =~= key);
}

/// Finds the X25519 key in a list of shares.
fn find_in_shares(data: &[u8]) -> (p: Option<usize>)
    ensures
        match (p, share_in_ext(data@)) {
            (Some(a), Some(b)) => a as nat == b && b + 32 <= data@.len(),
            (None, None) => true,
            _ => false,
        },
{
    if data.len() < 2 {
        return None;
    }
    let total: usize = read_u16(data, 0) as usize;
    let end: usize = if total <= data.len() - 2 {
        total + 2
    } else {
        data.len()
    };
    let mut pos: usize = 2;
    while pos <= end && end - pos >= 4
        invariant
            end <= data@.len(),
            2 <= pos <= data@.len(),
            share_in_ext(data@) == share_in_list(data@, pos as nat, end as nat),
        decreases data@.len() - pos,
    {
        let group: u16 = read_u16(data, pos);
        let len: usize = read_u16(data, pos + 2) as usize;
        if len > data.len() - (pos + 4) {
            return None;
        }
        if group == 0x1d && len == 32 {
            return Some(pos + 4);
        }
        pos = pos + 4 + len;
    }
    None
}

/// Reads the X25519 key in the data of a key_share extension.
pub fn parse_key_share_extension(data: &[u8]) -> (key: Option<[u8; 32]>)
    ensures
        match (key, share_in_ext(data@)) {
            (Some(k), Some(p)) => k@ == data@.subrange(p as int, p as int + 32),
            (None, None) => true,
            _ => false,
        },
{
    match find_in_shares(data) {
        Some(p) => {
            assert(p + 32 <= data.len());
            Some(array32(&data[p..p + 32]))
        },
        None => None,
    }
}

fn find_exts(body: &[u8]) -> (range: Option<(usize, usize)>)
    ensures
        match (range, exts_range(body@)) {
            (Some((a, b)), Some((c, d))) => a as nat == c && b as nat == d && c <= body@.len() && d
                <= body@.len(),
            (None, None) => true,
            _ => false,
        },
{
    if body.len() < 35 {
        return None;
    }
    let a: usize = 35 + body[34] as usize;
    if a + 2 > body.len() {
        return None;
    }
    let b: usize = a + 2 + read_u16(body, a) as usize;
    if b >= body.len() {
        return None;
    }
    let c: usize = b + 1 + body[b] as usize;
    if c + 2 > body.len() {
        return None;
    }
    let d: usize = c + 2 + read_u16(body, c) as usize;
    Some(
        (
            c + 2,
            if d <= body.len() {
                d
            } else {
                body.len()
            },
        ),
    )
}

/// Finds the X25519 key in a handshake record with a hello.
pub fn find_x25519_key_share_pos(record: &[u8]) -> (p: Option<usize>)
    ensures
        match (p, share_pos(record@)) {
            (Some(a), Some(b)) => a as nat == b && b + 32 <= record@.len(),
            (None, None) => true,
            _ => false,
        },
{
    if record.len() < 9 || record[0] != TLS_CONTENT_HANDSHAKE {
        return None;
    }
    let body: &[u8] = &record[9..record.len()];
    assert(body@ =~= record@.skip(9));
    let (from, end): (usize, usize) = match find_exts(body) {
        Some(x) => x,
        None => {
            return None;
        },
    };
    let mut pos: usize = from;
    while pos <= end && end - pos >= 4
        invariant
            record@.len() >= 9,
            body@ == record@.skip(9),
            body.len() + 9 == record.len(),
            end <= body@.len(),
            pos <= body@.len(),
            record@[0] == TLS_CONTENT_HANDSHAKE,
            match (share_pos(record@), share_in_exts(body@, pos as nat, end as nat)) {
                (Some(a), Some(b)) => a == b + 9,
                (None, None) => true,
                _ => false,
            },
        decreases body@.len() - pos,
    {
        let kind: u16 = read_u16(body, pos);
        let len: usize = read_u16(body, pos + 2) as usize;
        if len > body.len() - (pos + 4) {
            return None;
        }
        if kind == 0x33 {
            return match find_in_shares(&body[pos + 4..pos + 4 + len]) {
                Some(p) => Some(9 + pos + 4 + p),
                None => None,
            };
        }
        pos = pos + 4 + len;
    }
    None
}

/// Reads the X25519 key in a handshake record that holds a whole hello: five bytes of record
/// header, one of message type, three of message length, and the hello.
pub fn extract_x25519_key_share(record: &[u8]) -> (key: Option<[u8; 32]>)
    ensures
        match (key, share_key(record@)) {
            (Some(k), Some(l)) => k@ == l,
            (None, None) => true,
            _ => false,
        },
{
    if record.len() < 9 || record[0] != TLS_CONTENT_HANDSHAKE {
        return None;
    }
    if record.len() - 9 < read_u24(record, 6) as usize {
        return None;
    }
    match find_x25519_key_share_pos(record) {
        Some(p) => Some(array32(&record[p..p + 32])),
        None => None,
    }
}

/// Copies the key of the real hello into the imitation, where both have one.
pub fn patch_key_share(fake: &mut Vec<u8>, rustls_hello: &[u8])
    ensures
        final(fake)@ == patched(old(fake)@, rustls_hello@),
{
    let key: [u8; 32] = match extract_x25519_key_share(rustls_hello) {
        Some(k) => k,
        None => {
            return;
        },
    };
    match find_x25519_key_share_pos(fake) {
        Some(p) => {
            let mut i: usize = 0;
            assert(p + 32 <= fake.len());
            assert(fake@ =~= spliced(old(fake)@, p as nat, key@.take(0)));
            while i < 32
                invariant
                    i <= 32,
                    p + 32 <= old(fake)@.len(),
                    p + 32 <= usize::MAX,
                    fake@ == spliced(old(fake)@, p as nat, key@.take(i as int)),
                decreases 32 - i,
            {
                fake[p + i] = key[i];
                i += 1;
                assert(fake@ =~= spliced(old(fake)@, p as nat, key@.take(i as int)));
            }
            assert(key@.take(32) =~= key@);
        },
        None => {},
    }
}

// ---- replacing the first record ----

/// The imitation while it has not been sent.
pub struct HelloSwap {
    pub fake: Option<Vec<u8>>,
}

/// What to do with bytes that the TLS library writes.
pub enum SwapWrite {
    /// Send the imitation instead.
    Fake,
    /// Send the bytes themselves.
    Pass,
}

/// What the connection's taking some of the imitation amounts to.
#[derive(Clone, Copy, Debug, PartialEq, Eq, Structural)]
pub enum SwapSent {
    /// More of it is to be sent.
    Partly,
    /// All of it is sent. The library's own hello counts as written.
    Whole,
    /// The connection takes no more bytes.
    WriteZero,
}

impl HelloSwap {
    pub fn new(fake_hello: Vec<u8>) -> (s: HelloSwap)
        ensures
            s.fake == Some(fake_hello),
    {
        HelloSwap { fake: Some(fake_hello) }
    }

    /// Looks at bytes that the TLS library writes. While the imitation waits, it takes over
    /// the key share of a handshake record.
    pub fn on_write(&mut self, data: &[u8]) -> (w: SwapWrite)
        ensures
            match old(self).fake {
                None => w is Pass && final(self).fake is None,
                Some(f) => w is Fake && (final(self).fake matches Some(g) && g@ == if data@.len()
                    > 5 && data@[0] == TLS_CONTENT_HANDSHAKE {
                    patched(f@, data@)
                } else {
                    f@
                }),
            },
    {
        match self.fake.take() {
            None => SwapWrite::Pass,
            Some(mut f) => {
                if data.len() > 5 && data[0] == TLS_CONTENT_HANDSHAKE {
                    patch_key_share(&mut f, data);
                }
                self.fake = Some(f);
                SwapWrite::Fake
            },
        }
    }

    /// Notes that the connection took `n` bytes of the imitation.
    pub fn on_sent(&mut self, n: usize) -> (sent: SwapSent)
        requires
            old(self).fake matches Some(f) && f@.len() > 0,
        ensures
            match old(self).fake {
                None => false,
                Some(f) => if n == 0 {
                    sent == SwapSent::WriteZero && (final(self).fake matches Some(g) && g@ == f@)
                } else if n >= f@.len() {
                    sent == SwapSent::Whole && final(self).fake is None
                } else {
                    sent == SwapSent::Partly && (final(self).fake matches Some(g) && g@ == f@.skip(
                        n as int,
                    ))
                },
            },
    {
        match self.fake.take() {
            None => SwapSent::Whole,
            Some(f) => {
                if n == 0 {
                    self.fake = Some(f);
                    return SwapSent::WriteZero;
                }
                if n >= f.len() {
                    return SwapSent::Whole;
                }
                let rest: Vec<u8> = copy_range(&f, n, f.len());
                assert(rest@ =~= f@.skip(n as int));
                self.fake = Some(rest);
                SwapSent::Partly
            },
        }
    }
}

} // verus!
