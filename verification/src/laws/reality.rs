//! The dialogue with a REALITY server: what is sent, whom it is believed, and where its keys come
//! from.

use crate::config::RealityDialConfig;
use crate::crypto::{hmac_sha512_of, x25519_public_of, x25519_shared_of};
use crate::encoding::{all_hex, base64_standard, base64_url, hex_bytes, trimmed};
use crate::laws::words::hex_digits;
use crate::text::hex_value;
use crate::tls::certificate::{ed25519_parts, CertError};
use crate::tls::client_hello::{
    first_too_long, hello_message, hidden_session, is_hello, protocols_fit, session_key,
    ClientHelloError,
};
use crate::tls::keys::{client_hs_secret, master_secret, server_hs_secret, suite_hash, suite_number};
use crate::tls::reality::{
    after_hellos, authentic, dial_fault, dial_id, dial_name, is_dial_hello, is_timely_hello,
    judged, key_bytes, no_hello, padded_id, Flight, FlightView, HandshakeError, RealityConfigError,
    SentHello, ServerFlight,
};
use crate::tls::record::key_from;
use crate::tls::stream::{
    fed, handed_out, is_end, key_state, later, missing, partial, received, KeyState, ReadEvent,
    RecordReader,
};
use crate::laws::bytes::network_value;
use vstd::prelude::*;
use vstd::utf8::encode_utf8;

verus! {

/// A server is believed where it sent its extensions, a certificate and a proof of it, and where the
/// signature of the certificate is the code of its key under the shared key. The transcript then ends
/// with its Finished.
pub proof fn servers_are_judged(v: FlightView, finished: Seq<u8>, auth: Seq<u8>)
    ensures
        judged(v, finished, auth) is Accept <==> v.extensions && v.verify && (
        v.leaf matches Some(cert) && (ed25519_parts(cert) matches Some((key, sig)) && sig
            == hmac_sha512_of(auth, key))),
        judged(v, finished, auth) matches Flight::Accept(t) ==> t == v.transcript + finished,
        !v.extensions || !v.verify ==> judged(v, finished, auth) == Flight::Fail(
            HandshakeError::Incomplete,
        ),
        v.extensions && v.verify && v.leaf is None ==> judged(v, finished, auth) == Flight::Fail(
            HandshakeError::MissingCertificate,
        ),
        v.extensions && v.verify ==> (v.leaf matches Some(cert) ==> (match ed25519_parts(cert) {
            None => judged(v, finished, auth) == Flight::Fail(
                HandshakeError::Certificate(CertError::NotEd25519),
            ),
            Some((key, sig)) => sig != hmac_sha512_of(auth, key) ==> judged(v, finished, auth)
                == Flight::Fail(HandshakeError::Certificate(CertError::Mismatch)),
        })),
{
}

/// A certificate is authentic where its signature is the code of its key under the shared key.
pub proof fn certificates_are_authentic(cert: Seq<u8>, auth: Seq<u8>, key: Seq<u8>, sig: Seq<u8>)
    ensures
        ed25519_parts(cert) == Some((key, sig)) ==> (authentic(cert, auth) <==> sig
            == hmac_sha512_of(auth, key)),
        ed25519_parts(cert) is None ==> !authentic(cert, auth),
{
}

/// After the hellos the keys of the handshake are those that the shared secret and both hellos give,
/// the own for the client's records and the server's for the server's, and nothing of the server was
/// seen yet.
pub proof fn keys_after_the_hellos(
    f: ServerFlight,
    sent: SentHello,
    msg: Seq<u8>,
    suite: nat,
    share: Seq<u8>,
)
    requires
        after_hellos(f, sent, msg, suite, share),
    ensures
        ({
            let hash = suite_hash(f.suite);
            let shared = x25519_shared_of(sent.secret@, share);
            let t = sent.hello@ + msg;
            &&& suite_number(f.suite) == suite
            &&& f.client_secret@ == client_hs_secret(hash, shared, t)
            &&& f.server_secret@ == server_hs_secret(hash, shared, t)
            &&& f.master_secret@ == master_secret(hash, shared)
            &&& key_from(f.client, f.suite, client_hs_secret(hash, shared, t))
            &&& key_from(f.server, f.suite, server_hs_secret(hash, shared, t))
            &&& f.transcript@ == t
            &&& f.buf@.len() == 0
            &&& f.leaf is None
            &&& !f.extensions
            &&& !f.verify
            &&& f.auth_key@ == sent.auth_key@
        }),
{
    let v = f.view();
    assert(v.transcript == f.transcript@);
    assert(v.buf == f.buf@);
    assert(v.leaf is None);
    assert(v.extensions == f.extensions);
}

/// The hello carries the hidden session and the key of the client, and the key that certificates are
/// checked with is the one that hides the session.
pub proof fn hellos_carry_the_session(
    hello: Seq<u8>,
    cert_key: Seq<u8>,
    name: Seq<u8>,
    alpn: Seq<String>,
    random: Seq<u8>,
    key: Seq<u8>,
    shared: Seq<u8>,
    id: Seq<u8>,
    unix: u32,
)
    requires
        is_hello(hello, cert_key, name, alpn, random, key, shared, id, unix),
    ensures
        hello == hello_message(
            name,
            alpn,
            random,
            hidden_session(name, alpn, random, key, shared, id, unix),
            key,
        ),
        cert_key == session_key(shared, random),
        cert_key.len() == 32,
        hidden_session(name, alpn, random, key, shared, id, unix).len() == 32,
{
}

/// A dial sends the hello for the name of the settings, or for the server where no name is set, with
/// the own public key, under the secret shared with the key of the server.
pub proof fn dials_send_their_hello(
    sent: SentHello,
    config: RealityDialConfig,
    secret: Seq<u8>,
    random: Seq<u8>,
    unix: u32,
)
    ensures
        is_dial_hello(sent, config, secret, random, unix) ==> sent.secret@ == secret && (key_bytes(
            config.public_key@,
        ) matches Some(server) && is_hello(
            sent.hello@,
            sent.auth_key@,
            encode_utf8(dial_name(config)),
            config.alpn@,
            random,
            x25519_public_of(secret),
            x25519_shared_of(secret, server),
            dial_id(config),
            unix,
        )),
        is_dial_hello(sent, config, secret, random, unix) ==> is_timely_hello(
            sent,
            config,
            secret,
            random,
        ),
        config.server_name matches Some(n) ==> dial_name(config) == n@,
        config.server_name is None ==> dial_name(config) == config.server@,
        config.short_id@.len() == 0 ==> dial_id(config) == Seq::new(8, |i: int| 0u8),
        config.short_id@.len() > 0 ==> dial_id(config) == padded_id(hex_bytes(config.short_id@)),
{
    if config.short_id@.len() == 0 {
        assert(dial_id(config) =~= Seq::new(8, |i: int| 0u8));
    }
}

/// Pairs of hexadecimal digits are bytes, the high digit first.
pub proof fn digits_are_bytes(s: Seq<char>, i: int)
    requires
        all_hex(s),
        0 <= i < s.len() / 2,
    ensures
        hex_bytes(s).len() == s.len() / 2,
        hex_value(s[2 * i]) is Some,
        hex_value(s[2 * i + 1]) is Some,
        hex_bytes(s)[i] == 16 * hex_value(s[2 * i])->Some_0 + hex_value(s[2 * i + 1])->Some_0,
        !all_hex(s + seq!['g']),
{
    assert(hex_value(s[2 * i]) is Some && hex_value(s[2 * i + 1]) is Some);
    hex_digits(s[2 * i]);
    hex_digits(s[2 * i + 1]);
    let t = s + seq!['g'];
    assert(t[s.len() as int] == 'g');
}

/// A key is 64 hexadecimal digits, or else base64 for URLs, or else plain base64; blanks around it do
/// not count.
pub proof fn keys_are_read(s: Seq<char>)
    ensures
        ({
            let t = trimmed(s);
            &&& t.len() == 64 && all_hex(t) ==> key_bytes(s) == Some(hex_bytes(t))
            &&& t.len() != 64 || !all_hex(t) ==> key_bytes(s) == (match base64_url(t) {
                Some(b) => Some(b),
                None => base64_standard(t),
            })
        }),
{
}

/// The settings of a dial are faulty where the key is not readable or has not 32 bytes, and where the
/// short identifier is not made of up to eight pairs of hexadecimal digits.
pub proof fn dial_settings_are_judged(config: RealityDialConfig)
    ensures
        ({
            let key = key_bytes(config.public_key@);
            let id = config.short_id@;
            let n = encode_utf8(id).len();
            &&& key is None ==> dial_fault(config) == Some(RealityConfigError::PublicKeyEncoding)
            &&& key matches Some(b) ==> (b.len() != 32 ==> dial_fault(config) is Some)
            &&& key matches Some(b) ==> (b.len() == 32 ==> (dial_fault(config) is None <==> id.len()
                == 0 || (n % 2 == 0 && n <= 16 && id.len() % 2 == 0 && all_hex(id))))
            &&& key matches Some(b) ==> (b.len() == 32 && id.len() > 0 && (n % 2 == 1 || n > 16)
                ==> dial_fault(config) == Some(RealityConfigError::ShortIdLength))
        }),
{
}

/// A hello is not made where a protocol name has more than 255 bytes, and the first such name is
/// told.
pub proof fn long_protocols_are_told(alpn: Seq<String>, i: int)
    ensures
        first_too_long(alpn, i) ==> 0 <= i < alpn.len() && encode_utf8(alpn[i]@).len() > 255
            && !protocols_fit(alpn) && forall|j: int|
            0 <= j < i ==> encode_utf8((#[trigger] alpn[j])@).len() <= 255,
        0 <= i < alpn.len() && encode_utf8(alpn[i]@).len() > 255 ==> !protocols_fit(alpn),
        (forall|j: int| 0 <= j < alpn.len() ==> encode_utf8((#[trigger] alpn[j])@).len() <= 255)
            ==> protocols_fit(alpn),
{
}

/// Why there is no hello.
pub proof fn missing_hellos(
    e: ClientHelloError,
    config: RealityDialConfig,
    secret: Seq<u8>,
    random: Seq<u8>,
)
    requires
        no_hello(e, config, secret, random),
    ensures
        e matches ClientHelloError::AlpnTooLong(i) ==> first_too_long(config.alpn@, i as int),
        !(e is AlpnTooLong) ==> protocols_fit(config.alpn@),
{
}

/// A record is read in parts: its head of five bytes, and then as many as the head says, up to the
/// largest record.
pub proof fn records_are_waited_for(raw: Seq<u8>)
    ensures
        raw.len() < 5 ==> partial(raw) && missing(raw) == 5 - raw.len(),
        raw.len() >= 5 ==> (partial(raw) <==> raw[3] * 256 + raw[4] <= 18432 && raw.len() < 5
            + raw[3] * 256 + raw[4]),
        raw.len() >= 5 && partial(raw) ==> missing(raw) == 5 + raw[3] * 256 + raw[4] - raw.len(),
{
    if raw.len() >= 5 {
        network_value(raw.subrange(3, 5));
    }
}

/// What was read is kept in order: new data comes behind the old, data is handed out from the front,
/// and the number of the key counts the records.
pub proof fn data_is_kept_in_order(
    before: RecordReader,
    after: RecordReader,
    bytes: Seq<u8>,
    event: ReadEvent,
    n: nat,
    data: Seq<u8>,
    key: KeyState,
)
    ensures
        received(before, after, bytes, event) ==> ({
            let (e, raw, more, used) = fed(key_state(before.key), before.raw@ + bytes);
            event == e && after.raw@ == raw && after.plain@ == before.plain@ + more && after.key.seq
                == before.key.seq + used && after.key.key@ == before.key.key@ && after.key.iv@
                == before.key.iv@ && after.key.suite == before.key.suite
        }),
        handed_out(before, after, n, data) ==> data.len() <= n && data + after.plain@
            == before.plain@ && (data.len() < n ==> after.plain@.len() == 0) && after.key
            == before.key && after.raw == before.raw,
        later(key, n) == (KeyState { suite: key.suite, key: key.key, iv: key.iv, seq: key.seq + n }),
        is_end(event) <==> event is Closed || event is Failed,
{
    if received(before, after, bytes, event) {
        let a = key_state(after.key);
        let b = key_state(before.key);
        assert(a.seq == after.key.seq && b.seq == before.key.seq);
        assert(a.key == after.key.key@ && b.key == before.key.key@);
        assert(a.iv == after.key.iv@ && b.iv == before.key.iv@);
        assert(a.suite == after.key.suite && b.suite == before.key.suite);
    }
}

} // verus!
