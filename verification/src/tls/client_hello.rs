//! The ClientHello of a REALITY client: a TLS 1.3 hello whose session identifier hides an
//! authentication payload.

use crate::clock::unix_seconds;
use crate::crypto::{aead_seal, can_seal, hmac_sha256, hmac_sha256_of, sealed, Aead};
use crate::text::texts;
use crate::tls::keys::{
    expanded, zeros, HashKind, TLS_AES_128_GCM_SHA256, TLS_AES_256_GCM_SHA384,
    TLS_CHACHA20_POLY1305_SHA256,
};
use crate::tls::server_hello::{GROUP_X25519, HS_CLIENT_HELLO};
use crate::wire::{
    be_bytes, be_bytes_len, be_bytes_mod, byte_range, put_bytes, put_len16, put_len24, put_u16,
    put_u32,
};
use vstd::prelude::*;
use vstd::utf8::encode_utf8;

verus! {

/// Why no hello can be made.
#[derive(Clone, Copy, Debug, PartialEq, Eq, Structural)]
pub enum ClientHelloError {
    /// The protocol at this place of the list has more than 255 bytes.
    AlpnTooLong(usize),
    /// The clock is set before 1970.
    Clock,
    /// The hello is too long to be authenticated.
    Seal,
}

/// An extension.
#[verifier::opaque]
pub open spec fn ext(typ: u16, data: Seq<u8>) -> Seq<u8> {
    be_bytes(typ as nat, 2) + be_bytes(data.len(), 2) + data
}

/// The data of the server_name extension.
pub open spec fn server_name_data(name: Seq<u8>) -> Seq<u8> {
    be_bytes(name.len() + 3, 2) + (seq![0u8] + be_bytes(name.len(), 2) + name)
}

/// The protocol names, each with its length in front.
pub open spec fn alpn_list(alpn: Seq<Seq<char>>) -> Seq<u8>
    decreases alpn.len(),
{
    if alpn.len() == 0 {
        Seq::empty()
    } else {
        let p = encode_utf8(alpn.last());
        alpn_list(alpn.drop_last()) + (seq![(p.len() % 256) as u8] + p)
    }
}

/// The data of the ALPN extension.
pub open spec fn alpn_data(alpn: Seq<Seq<char>>) -> Seq<u8> {
    be_bytes(alpn_list(alpn).len(), 2) + alpn_list(alpn)
}

/// A list of 16-bit numbers, each in two bytes.
pub open spec fn u16_items(values: Seq<u16>) -> Seq<u8>
    decreases values.len(),
{
    if values.len() == 0 {
        Seq::empty()
    } else {
        u16_items(values.drop_last()) + be_bytes(values.last() as nat, 2)
    }
}

/// A list of 16-bit numbers with its length in front.
pub open spec fn u16_list_data(values: Seq<u16>) -> Seq<u8> {
    be_bytes(2 * values.len(), 2) + u16_items(values)
}

/// The data of the key_share extension with one X25519 key.
pub open spec fn key_share_data(key: Seq<u8>) -> Seq<u8> {
    be_bytes(key.len() + 4, 2) + (be_bytes(GROUP_X25519 as nat, 2) + be_bytes(key.len(), 2) + key)
}

/// The extensions of the hello.
pub open spec fn hello_exts(name: Seq<u8>, alpn: Seq<String>, key: Seq<u8>) -> Seq<u8> {
    ext(0, server_name_data(name)) + ext(10, u16_list_data(seq![GROUP_X25519, 0x0017, 0x0018]))
        + ext(11, seq![1u8, 0u8]) + ext(
        13,
        u16_list_data(seq![0x0807u16, 0x0403, 0x0804, 0x0805]),
    ) + (if alpn.len() > 0 {
        ext(16, alpn_data(texts(alpn)))
    } else {
        Seq::empty()
    }) + ext(35, Seq::empty()) + ext(43, seq![4u8, 3u8, 4u8, 3u8, 3u8]) + ext(45, seq![1u8, 1u8])
        + ext(51, key_share_data(key))
}

/// What follows the session identifier: cipher suites, compression and extensions.
pub open spec fn hello_tail(name: Seq<u8>, alpn: Seq<String>, key: Seq<u8>) -> Seq<u8> {
    let exts = hello_exts(name, alpn, key);
    be_bytes(6, 2) + be_bytes(TLS_AES_128_GCM_SHA256 as nat, 2) + be_bytes(
        TLS_AES_256_GCM_SHA384 as nat,
        2,
    ) + be_bytes(TLS_CHACHA20_POLY1305_SHA256 as nat, 2) + seq![1u8, 0u8] + be_bytes(
        exts.len(),
        2,
    ) + exts
}

/// The body of the hello.
pub open spec fn hello_body(
    name: Seq<u8>,
    alpn: Seq<String>,
    random: Seq<u8>,
    session: Seq<u8>,
    key: Seq<u8>,
) -> Seq<u8> {
    seq![3u8, 3u8] + random + seq![32u8] + session + hello_tail(name, alpn, key)
}

/// The hello message.
pub open spec fn hello_message(
    name: Seq<u8>,
    alpn: Seq<String>,
    random: Seq<u8>,
    session: Seq<u8>,
    key: Seq<u8>,
) -> Seq<u8> {
    let body = hello_body(name, alpn, random, session, key);
    seq![HS_CLIENT_HELLO] + be_bytes(body.len(), 3) + body
}

/// HKDF with SHA-256, as RFC 5869 has it.
pub open spec fn hkdf_sha256_of(
    secret: Seq<u8>,
    salt: Seq<u8>,
    info: Seq<u8>,
    len: nat,
) -> Seq<u8> {
    expanded(HashKind::Sha256, hmac_sha256_of(salt, secret), info, len)
}

/// The key under which the session identifier is encrypted.
pub open spec fn session_key(auth_key: Seq<u8>, random: Seq<u8>) -> Seq<u8> {
    hkdf_sha256_of(auth_key, random.take(20), encode_utf8("REALITY"@), 32)
}

/// What the session identifier hides: the protocol version, the time and the short
/// identifier.
pub open spec fn auth_payload(unix: u32, short_id: Seq<u8>) -> Seq<u8> {
    seq![1u8, 8u8, 1u8, 0u8] + be_bytes(unix as nat, 4) + short_id
}

/// The session identifier: the payload encrypted under the session key, authenticated
/// together with the hello in which the identifier is still zero.
pub open spec fn hidden_session(
    name: Seq<u8>,
    alpn: Seq<String>,
    random: Seq<u8>,
    key: Seq<u8>,
    auth_key: Seq<u8>,
    short_id: Seq<u8>,
    unix: u32,
) -> Seq<u8> {
    sealed(
        Aead::Aes256Gcm,
        session_key(auth_key, random),
        random.skip(20),
        hello_message(name, alpn, random, zeros(32), key),
        auth_payload(unix, short_id),
    )
}

/// No protocol name is too long to be sent.
pub open spec fn protocols_fit(alpn: Seq<String>) -> bool {
    forall|i: int| 0 <= i < alpn.len() ==> encode_utf8((#[trigger] alpn[i])@).len() <= 255
}

/// The first protocol name that is too long to be sent is the one at `i`.
pub open spec fn first_too_long(alpn: Seq<String>, i: int) -> bool {
    &&& 0 <= i < alpn.len()
    &&& encode_utf8(alpn[i]@).len() > 255
    &&& forall|j: int| 0 <= j < i ==> encode_utf8((#[trigger] alpn[j])@).len() <= 255
}

/// The cipher takes a hello of this length as data to authenticate.
pub open spec fn hello_seals(name: Seq<u8>, alpn: Seq<String>, random: Seq<u8>, key: Seq<u8>) -> bool {
    can_seal(Aead::Aes256Gcm, 16, hello_message(name, alpn, random, zeros(32), key).len())
}

/// `hello` is the hello that is sent at the given time, and `cert_key` the key that the server's
/// certificate is checked with.
pub open spec fn is_hello(
    hello: Seq<u8>,
    cert_key: Seq<u8>,
    name: Seq<u8>,
    alpn: Seq<String>,
    random: Seq<u8>,
    key: Seq<u8>,
    auth_key: Seq<u8>,
    short_id: Seq<u8>,
    unix: u32,
) -> bool {
    let session = hidden_session(name, alpn, random, key, auth_key, short_id, unix);
    &&& session.len() == 32
    &&& hello == hello_message(name, alpn, random, session, key)
    &&& hello.len() >= 71
    &&& cert_key == session_key(auth_key, random)
    &&& cert_key.len() == 32
}

/// The key that the authentication rests on.
pub fn hkdf_sha256(secret: &[u8], salt: &[u8], info: &[u8], len: usize) -> (out: Vec<u8>)
    requires
        len <= 8128,
    ensures
        out@ == hkdf_sha256_of(secret@, salt@, info@, len as nat),
        out@.len() == len,
{
    let prk: Vec<u8> = hmac_sha256(salt, secret);
    HashKind::Sha256.hkdf_expand(&prk, info, len)
}

/// Only the low 16 bits of a length show.
proof fn low_bits(n: nat, k: nat)
    ensures
        be_bytes(n + k, 2) == be_bytes(n % 65536 + k, 2),
{
    assert(byte_range(2) == 65536) by {
        reveal_with_fuel(byte_range, 3);
    }
    let m = (n % 65536 + k) as nat;
    be_bytes_mod(n + k, 2);
    be_bytes_mod(m, 2);
    vstd::arithmetic::div_mod::lemma_add_mod_noop_right(k as int, n as int, 65536);
    assert((n + k) % 65536 == m % 65536);
}

/// The data of the server_name extension.
pub fn server_name_ext(server_name: &str) -> (out: Vec<u8>)
    ensures
        out@ == server_name_data(encode_utf8(server_name@)),
{
    let name: &[u8] = server_name.as_bytes();
    let mut out: Vec<u8> = Vec::new();
    put_len16(&mut out, name.len() % 65536 + 3);
    proof {
        low_bits(name@.len(), 3);
    }
    out.push(0);
    put_len16(&mut out, name.len());
    put_bytes(&mut out, name);
    assert(out@ =~= server_name_data(encode_utf8(server_name@)));
    out
}

/// The data of the ALPN extension, unless a protocol name is too long.
pub fn alpn_ext(alpn: &[String]) -> (res: Result<Vec<u8>, ClientHelloError>)
    ensures
        match res {
            Ok(out) => out@ == alpn_data(texts(alpn@)) && protocols_fit(alpn@),
            Err(e) => e matches ClientHelloError::AlpnTooLong(i) && first_too_long(
                alpn@,
                i as int,
            ),
        },
{
    let mut i: usize = 0;
    while i < alpn.len()
        invariant
            i <= alpn@.len(),
            forall|j: int| 0 <= j < i ==> encode_utf8((#[trigger] alpn@[j])@).len() <= 255,
        decreases alpn@.len() - i,
    {
        if alpn[i].as_str().as_bytes().len() > 255 {
            return Err(ClientHelloError::AlpnTooLong(i));
        }
        i += 1;
    }
    Ok(protocol_list(alpn))
}

/// The data of the ALPN extension for names of any length, of which one byte is kept.
pub fn protocol_list(alpn: &[String]) -> (out: Vec<u8>)
    ensures
        out@ == alpn_data(texts(alpn@)),
{
    let ghost all = texts(alpn@);
    let mut list: Vec<u8> = Vec::new();
    let mut i: usize = 0;
    while i < alpn.len()
        invariant
            i <= alpn@.len(),
            all == texts(alpn@),
            list@ == alpn_list(all.take(i as int)),
        decreases alpn@.len() - i,
    {
        let bytes: &[u8] = alpn[i].as_str().as_bytes();
        let ghost before = list@;
        list.push((bytes.len() % 256) as u8);
        put_bytes(&mut list, bytes);
        proof {
            assert(all.take(i + 1).drop_last() =~= all.take(i as int));
            assert(all.take(i + 1).last() == alpn@[i as int]@);
            assert(list@ =~= before + (seq![(bytes@.len() % 256) as u8] + bytes@));
        }
        i += 1;
    }
    assert(all.take(i as int) =~= all);
    let mut out: Vec<u8> = Vec::new();
    put_len16(&mut out, list.len());
    put_bytes(&mut out, &list);
    assert(out@ =~= alpn_data(all));
    out
}

/// A list of 16-bit numbers with its length in front.
pub fn u16_list_ext(values: &[u16]) -> (out: Vec<u8>)
    requires
        2 * values@.len() <= usize::MAX,
    ensures
        out@ == u16_list_data(values@),
{
    let mut out: Vec<u8> = Vec::new();
    put_len16(&mut out, values.len() * 2);
    let ghost head = out@;
    let mut i: usize = 0;
    while i < values.len()
        invariant
            i <= values@.len(),
            out@ == head + u16_items(values@.take(i as int)),
        decreases values@.len() - i,
    {
        put_u16(&mut out, values[i]);
        proof {
            assert(values@.take(i + 1).drop_last() =~= values@.take(i as int));
            assert(values@.take(i + 1).last() == values@[i as int]);
            assert(out@ =~= head + u16_items(values@.take(i + 1)));
        }
        i += 1;
    }
    assert(values@.take(i as int) =~= values@);
    assert(head =~= be_bytes(2 * values@.len(), 2));
    out
}

/// The data of the key_share extension.
pub fn key_share_ext(public_key: &[u8]) -> (out: Vec<u8>)
    requires
        public_key@.len() == 32,
    ensures
        out@ == key_share_data(public_key@),
{
    let mut out: Vec<u8> = Vec::new();
    put_len16(&mut out, public_key.len() + 4);
    put_u16(&mut out, GROUP_X25519);
    put_len16(&mut out, public_key.len());
    put_bytes(&mut out, public_key);
    assert(out@ =~= key_share_data(public_key@));
    out
}

/// Appends an extension.
pub fn push_ext(out: &mut Vec<u8>, typ: u16, data: &[u8])
    ensures
        final(out)@ == old(out)@ + ext(typ, data@),
{
    put_u16(out, typ);
    put_len16(out, data.len());
    put_bytes(out, data);
    reveal(ext);
    assert(out@ =~= old(out)@ + ext(typ, data@));
}

fn build_exts(server_name: &str, alpn: &[String], key: &[u8]) -> (res: Result<
    Vec<u8>,
    ClientHelloError,
>)
    requires
        key@.len() == 32,
    ensures
        match res {
            Ok(out) => out@ == hello_exts(encode_utf8(server_name@), alpn@, key@) && forall|
                i: int,
            | 0 <= i < alpn@.len() ==> encode_utf8((#[trigger] alpn@[i])@).len() <= 255,
            Err(e) => e matches ClientHelloError::AlpnTooLong(i) && i < alpn@.len()
                && encode_utf8(alpn@[i as int]@).len() > 255 && forall|j: int|
                0 <= j < i ==> encode_utf8((#[trigger] alpn@[j])@).len() <= 255,
        },
{
    let mut out: Vec<u8> = Vec::new();
    push_ext(&mut out, 0, &server_name_ext(server_name));
    let groups: [u16; 3] = [GROUP_X25519, 0x0017, 0x0018];
    assert(groups@ =~= seq![GROUP_X25519, 0x0017, 0x0018]);
    push_ext(&mut out, 10, &u16_list_ext(&groups));
    let formats: [u8; 2] = [1, 0];
    assert(formats@ =~= seq![1u8, 0u8]);
    push_ext(&mut out, 11, &formats);
    let schemes: [u16; 4] = [0x0807, 0x0403, 0x0804, 0x0805];
    assert(schemes@ =~= seq![0x0807u16, 0x0403, 0x0804, 0x0805]);
    push_ext(&mut out, 13, &u16_list_ext(&schemes));
    let ghost front = out@;
    if alpn.len() > 0 {
        let data: Vec<u8> = match alpn_ext(alpn) {
            Ok(d) => d,
            Err(e) => {
                return Err(e);
            },
        };
        push_ext(&mut out, 16, &data);
    }
    let ghost middle = if alpn@.len() > 0 {
        ext(16, alpn_data(texts(alpn@)))
    } else {
        Seq::<u8>::empty()
    };
    assert(out@ =~= front + middle);
    let empty: Vec<u8> = Vec::new();
    assert(empty@ =~= Seq::empty());
    push_ext(&mut out, 35, &empty);
    let versions: [u8; 5] = [4, 3, 4, 3, 3];
    assert(versions@ =~= seq![4u8, 3u8, 4u8, 3u8, 3u8]);
    push_ext(&mut out, 43, &versions);
    let modes: [u8; 2] = [1, 1];
    assert(modes@ =~= seq![1u8, 1u8]);
    push_ext(&mut out, 45, &modes);
    push_ext(&mut out, 51, &key_share_ext(key));
    assert(out@ =~= hello_exts(encode_utf8(server_name@), alpn@, key@));
    Ok(out)
}

/// The hello with the given session identifier and extensions.
fn assemble(random: &[u8], session: &[u8], exts: &[u8]) -> (hello: Vec<u8>)
    requires
        random@.len() == 32,
        session@.len() == 32,
    ensures
        hello@.len() >= 71,
        forall|name: Seq<u8>, alpn: Seq<String>, key: Seq<u8>|
            exts@ == #[trigger] hello_exts(name, alpn, key) ==> hello@ == hello_message(
                name,
                alpn,
                random@,
                session@,
                key,
            ),
{
    let mut body: Vec<u8> = vec![3u8, 3u8];
    put_bytes(&mut body, random);
    body.push(32);
    put_bytes(&mut body, session);
    put_u16(&mut body, 6);
    put_u16(&mut body, TLS_AES_128_GCM_SHA256);
    put_u16(&mut body, TLS_AES_256_GCM_SHA384);
    put_u16(&mut body, TLS_CHACHA20_POLY1305_SHA256);
    body.push(1);
    body.push(0);
    put_len16(&mut body, exts.len());
    put_bytes(&mut body, exts);
    let mut hello: Vec<u8> = vec![HS_CLIENT_HELLO];
    put_len24(&mut hello, body.len());
    put_bytes(&mut hello, &body);
    proof {
        be_bytes_len(body@.len(), 3);
        assert forall|name: Seq<u8>, alpn: Seq<String>, key: Seq<u8>|
            exts@ == #[trigger] hello_exts(name, alpn, key) implies hello@ == hello_message(
            name,
            alpn,
            random@,
            session@,
            key,
        ) by {
            assert(body@ =~= hello_body(name, alpn, random@, session@, key));
            assert(hello@ =~= hello_message(name, alpn, random@, session@, key));
        }
    }
    hello
}

/// The hello that is sent at the given time, with the key that the server's certificate is
/// checked with.
pub fn reality_client_hello_at(
    server_name: &str,
    alpn: &[String],
    random: &[u8],
    key_share: &[u8],
    auth_key: &[u8],
    short_id: &[u8],
    unix: u32,
) -> (res: Result<(Vec<u8>, Vec<u8>), ClientHelloError>)
    requires
        random@.len() == 32,
        key_share@.len() == 32,
        auth_key@.len() == 32,
        short_id@.len() == 8,
    ensures
        match res {
            Ok((hello, key)) => protocols_fit(alpn@) && hello_seals(
                encode_utf8(server_name@),
                alpn@,
                random@,
                key_share@,
            ) && is_hello(
                hello@,
                key@,
                encode_utf8(server_name@),
                alpn@,
                random@,
                key_share@,
                auth_key@,
                short_id@,
                unix,
            ),
            Err(ClientHelloError::AlpnTooLong(i)) => first_too_long(alpn@, i as int),
            Err(ClientHelloError::Seal) => protocols_fit(alpn@) && !hello_seals(
                encode_utf8(server_name@),
                alpn@,
                random@,
                key_share@,
            ),
            Err(ClientHelloError::Clock) => false,
        },
{
    let exts: Vec<u8> = match build_exts(server_name, alpn, key_share) {
        Ok(e) => e,
        Err(e) => {
            return Err(e);
        },
    };
    let zero: [u8; 32] = [0u8; 32];
    assert(zero@ =~= zeros(32));
    let plain_hello: Vec<u8> = assemble(random, &zero, &exts);
    let salt: &[u8] = &random[0..20];
    assert(salt@ =~= random@.take(20));
    let key: Vec<u8> = hkdf_sha256(auth_key, salt, "REALITY".as_bytes(), 32);
    let mut payload: Vec<u8> = vec![1u8, 8u8, 1u8, 0u8];
    put_u32(&mut payload, unix);
    put_bytes(&mut payload, short_id);
    proof {
        be_bytes_len(unix as nat, 4);
        assert(payload@ =~= auth_payload(unix, short_id@));
    }
    let nonce: &[u8] = &random[20..32];
    assert(nonce@ =~= random@.skip(20));
    match aead_seal(Aead::Aes256Gcm, &key, nonce, &plain_hello, &payload) {
        Some(session) => Ok((assemble(random, &session, &exts), key)),
        None => Err(ClientHelloError::Seal),
    }
}

/// The hello that is sent now, with the key that the server's certificate is checked with.
pub fn build_reality_client_hello(
    server_name: &str,
    alpn: &[String],
    random: &[u8],
    key_share: &[u8],
    auth_key: &[u8],
    short_id: &[u8],
) -> (res: Result<(Vec<u8>, Vec<u8>), ClientHelloError>)
    requires
        random@.len() == 32,
        key_share@.len() == 32,
        auth_key@.len() == 32,
        short_id@.len() == 8,
    ensures
        match res {
            Ok((hello, key)) => protocols_fit(alpn@) && hello_seals(
                encode_utf8(server_name@),
                alpn@,
                random@,
                key_share@,
            ) && exists|unix: u32| #[trigger]
                is_hello(
                    hello@,
                    key@,
                    encode_utf8(server_name@),
                    alpn@,
                    random@,
                    key_share@,
                    auth_key@,
                    short_id@,
                    unix,
                ),
            Err(ClientHelloError::AlpnTooLong(i)) => first_too_long(alpn@, i as int),
            Err(ClientHelloError::Seal) => protocols_fit(alpn@) && !hello_seals(
                encode_utf8(server_name@),
                alpn@,
                random@,
                key_share@,
            ),
            Err(ClientHelloError::Clock) => protocols_fit(alpn@),
        },
{
    let unix: u32 = match unix_seconds() {
        Some(s) => (s % 0x1_0000_0000) as u32,
        None => {
            match alpn_ext(alpn) {
                Ok(_) => {
                    return Err(ClientHelloError::Clock);
                },
                Err(e) => {
                    return Err(e);
                },
            }
        },
    };
    reality_client_hello_at(server_name, alpn, random, key_share, auth_key, short_id, unix)
}

proof fn parts_of_hello(head: Seq<u8>, len: Seq<u8>, random: Seq<u8>, session: Seq<u8>, tail: Seq<u8>)
    requires
        head.len() == 1,
        len.len() == 3,
        random.len() == 32,
        session.len() == 32,
    ensures
        ({
            let m = head + len + (seq![3u8, 3u8] + random + seq![32u8] + session + tail);
            &&& m.subrange(39, 71) == session
            &&& m.subrange(6, 38) == random
            &&& m.take(39) == head + len + (seq![3u8, 3u8] + random + seq![32u8])
            &&& m.skip(71) == tail
        }),
{
    let m = head + len + (seq![3u8, 3u8] + random + seq![32u8] + session + tail);
    assert(m.subrange(39, 71) =~= session);
    assert(m.subrange(6, 38) =~= random);
    assert(m.take(39) =~= head + len + (seq![3u8, 3u8] + random + seq![32u8]));
    assert(m.skip(71) =~= tail);
}

/// The session identifier stands at its fixed place in the hello, and everything around it
/// is as in the hello with a zero identifier. So a server that clears those 32 bytes has the
/// data that they are authenticated with, and opens them to the authentication payload.
pub proof fn session_hides_payload(
    name: Seq<u8>,
    alpn: Seq<String>,
    random: Seq<u8>,
    key: Seq<u8>,
    auth_key: Seq<u8>,
    short_id: Seq<u8>,
    unix: u32,
)
    requires
        random.len() == 32,
        hidden_session(name, alpn, random, key, auth_key, short_id, unix).len() == 32,
    ensures
        ({
            let session = hidden_session(name, alpn, random, key, auth_key, short_id, unix);
            let hello = hello_message(name, alpn, random, session, key);
            let cleared = hello.take(39) + zeros(32) + hello.skip(71);
            &&& hello.subrange(6, 38) == random
            &&& hello.subrange(39, 71) == sealed(
                Aead::Aes256Gcm,
                session_key(auth_key, random),
                random.skip(20),
                cleared,
                auth_payload(unix, short_id),
            )
        }),
{
    let session = hidden_session(name, alpn, random, key, auth_key, short_id, unix);
    let hello = hello_message(name, alpn, random, session, key);
    let plain = hello_message(name, alpn, random, zeros(32), key);
    let cleared = hello.take(39) + zeros(32) + hello.skip(71);
    let tail = hello_tail(name, alpn, key);
    let n = hello_body(name, alpn, random, session, key).len();
    assert(n == hello_body(name, alpn, random, zeros(32), key).len());
    be_bytes_len(n, 3);
    parts_of_hello(seq![HS_CLIENT_HELLO], be_bytes(n, 3), random, session, tail);
    parts_of_hello(seq![HS_CLIENT_HELLO], be_bytes(n, 3), random, zeros(32), tail);
    assert(plain.subrange(39, 71) == zeros(32));
    assert(plain =~= plain.take(39) + plain.subrange(39, 71) + plain.skip(71));
    assert(cleared == plain);
}

} // verus!
