//! The keys, records and messages of TLS 1.3 and REALITY, as a server computes and reads them.

use crate::crypto::{hmac_sha256_of, hmac_sha384_of, opened, sealed, sha256_of, sha384_of, Aead};
use crate::laws::bytes::{
    ascii, ascii_is_sent_as_it_is, four, network_order, network_order_of_eight, network_value, two,
};
use crate::tls::client_hello::{
    alpn_data, alpn_list, auth_payload, ext, hello_exts, hello_message, hidden_session,
    key_share_data, server_name_data, session_key, u16_items, u16_list_data,
};
use crate::tls::keys::{
    client_ap_secret, client_hs_secret, digest_of, expand_block, expand_blocks, expanded,
    expanded_label, finished_data, handshake_secret, hash_len, hmac_of, label_info, master_secret,
    server_ap_secret, server_hs_secret, suite_aead, suite_hash, suite_key_len, suite_number, zeros,
    CipherSuite, HashKind,
};
use crate::tls::reality::{
    connected, drained, flight_step, padded_id, plain_step, Connected, Drained, Flight, FlightView,
    HandshakeError, ServerFlight,
};
use crate::tls::record::{
    content_end, key_from, nonce_of, opened_record, plain_record, record_header, sealed_record,
    RecordError, RecordKey, MAX_RECORD,
};
use crate::tls::server_hello::message_len;
use crate::tls::stream::{announced, fed, record_effect, KeyState, ReadEvent};
use crate::wire::be_bytes;
use vstd::prelude::*;
use vstd::utf8::encode_utf8;

verus! {

// ---- the suites ----

/// The cipher, the hash and the length of the key of each suite, by its number.
pub proof fn suites_by_number(suite: CipherSuite)
    ensures
        suite_number(suite) == 0x1301 <==> suite is Aes128GcmSha256,
        suite_number(suite) == 0x1302 <==> suite is Aes256GcmSha384,
        suite_number(suite) == 0x1303 <==> suite is ChaCha20Poly1305Sha256,
        suite_number(suite) == 0x1301 ==> suite_aead(suite) == Aead::Aes128Gcm && suite_hash(suite)
            == HashKind::Sha256 && suite_key_len(suite) == 16,
        suite_number(suite) == 0x1302 ==> suite_aead(suite) == Aead::Aes256Gcm && suite_hash(suite)
            == HashKind::Sha384 && suite_key_len(suite) == 32,
        suite_number(suite) == 0x1303 ==> suite_aead(suite) == Aead::ChaCha20Poly1305 && suite_hash(
            suite,
        ) == HashKind::Sha256 && suite_key_len(suite) == 32,
        hash_len(HashKind::Sha256) == 32,
        hash_len(HashKind::Sha384) == 48,
{
}

/// A hash and an authentication code are those of the hash's own name.
pub proof fn hashes_are_their_own(key: Seq<u8>, data: Seq<u8>)
    ensures
        digest_of(HashKind::Sha256, data) == sha256_of(data),
        digest_of(HashKind::Sha384, data) == sha384_of(data),
        hmac_of(HashKind::Sha256, key, data) == hmac_sha256_of(key, data),
        hmac_of(HashKind::Sha384, key, data) == hmac_sha384_of(key, data),
{
}

// ---- the key schedule ----

/// What is hashed to expand a secret under a label into no more bytes than the hash has: the length,
/// the label behind its own length, the context behind its own, and a one.
pub open spec fn expand_input(len: u8, label: Seq<u8>, context: Seq<u8>) -> Seq<u8> {
    seq![0u8, len, label.len() as u8] + label + seq![context.len() as u8] + context + seq![1u8]
}

proof fn one_block(hash: HashKind, secret: Seq<u8>, info: Seq<u8>, len: nat)
    requires
        0 < len <= hash_len(hash),
    ensures
        expanded(hash, secret, info, len) == hmac_of(hash, secret, info + seq![1u8]).take(
            len as int,
        ),
{
    let n = ((len + hash_len(hash) - 1) / hash_len(hash) as int) as nat;
    assert(n == 1) by (nonlinear_arith)
        requires
            0 < len <= hash_len(hash),
            hash_len(hash) == 32 || hash_len(hash) == 48,
            n == ((len + hash_len(hash) - 1) / hash_len(hash) as int) as nat,
    ;
    reveal_with_fuel(expand_blocks, 2);
    reveal_with_fuel(expand_block, 2);
    assert(Seq::<u8>::empty() + info + seq![1u8] =~= info + seq![1u8]);
    let b = hmac_of(hash, secret, info + seq![1u8]);
    assert(expand_blocks(hash, secret, info, 1) =~= b);
}

proof fn one_label(
    hash: HashKind,
    secret: Seq<u8>,
    label: Seq<u8>,
    whole: Seq<u8>,
    context: Seq<u8>,
    len: nat,
)
    requires
        0 < len <= hash_len(hash),
        whole == seq![0x74u8, 0x6c, 0x73, 0x31, 0x33, 0x20] + label,
        label.len() <= 200,
        context.len() <= 255,
    ensures
        expanded_label(hash, secret, label, context, len) == hmac_of(
            hash,
            secret,
            expand_input(len as u8, whole, context),
        ).take(len as int),
{
    let info = label_info(label, context, len);
    one_block(hash, secret, info, len);
    network_order(len);
    assert(info + seq![1u8] =~= expand_input(len as u8, whole, context));
}

/// An expansion of no more bytes than the hash has is the start of the authentication code of the
/// input, under the secret.
pub proof fn labels_expand(hash: HashKind, secret: Seq<u8>, context: Seq<u8>, len: nat)
    requires
        0 < len <= hash_len(hash),
        context.len() <= 255,
    ensures
        expanded_label(hash, secret, encode_utf8("c hs traffic"@), context, len) == hmac_of(
            hash,
            secret,
            expand_input(len as u8, ascii("tls13 c hs traffic"@), context),
        ).take(len as int),
        expanded_label(hash, secret, encode_utf8("s hs traffic"@), context, len) == hmac_of(
            hash,
            secret,
            expand_input(len as u8, ascii("tls13 s hs traffic"@), context),
        ).take(len as int),
        expanded_label(hash, secret, encode_utf8("c ap traffic"@), context, len) == hmac_of(
            hash,
            secret,
            expand_input(len as u8, ascii("tls13 c ap traffic"@), context),
        ).take(len as int),
        expanded_label(hash, secret, encode_utf8("s ap traffic"@), context, len) == hmac_of(
            hash,
            secret,
            expand_input(len as u8, ascii("tls13 s ap traffic"@), context),
        ).take(len as int),
        expanded_label(hash, secret, encode_utf8("derived"@), context, len) == hmac_of(
            hash,
            secret,
            expand_input(len as u8, ascii("tls13 derived"@), context),
        ).take(len as int),
        expanded_label(hash, secret, encode_utf8("finished"@), context, len) == hmac_of(
            hash,
            secret,
            expand_input(len as u8, ascii("tls13 finished"@), context),
        ).take(len as int),
        expanded_label(hash, secret, encode_utf8("key"@), context, len) == hmac_of(
            hash,
            secret,
            expand_input(len as u8, ascii("tls13 key"@), context),
        ).take(len as int),
        expanded_label(hash, secret, encode_utf8("iv"@), context, len) == hmac_of(
            hash,
            secret,
            expand_input(len as u8, ascii("tls13 iv"@), context),
        ).take(len as int),
{
    let prefix = seq![0x74u8, 0x6c, 0x73, 0x31, 0x33, 0x20];
    reveal_strlit("c hs traffic");
    reveal_strlit("tls13 c hs traffic");
    ascii_is_sent_as_it_is("c hs traffic"@);
    assert(ascii("tls13 c hs traffic"@) =~= prefix + ascii("c hs traffic"@));
    one_label(hash, secret, ascii("c hs traffic"@), ascii("tls13 c hs traffic"@), context, len);
    reveal_strlit("s hs traffic");
    reveal_strlit("tls13 s hs traffic");
    ascii_is_sent_as_it_is("s hs traffic"@);
    assert(ascii("tls13 s hs traffic"@) =~= prefix + ascii("s hs traffic"@));
    one_label(hash, secret, ascii("s hs traffic"@), ascii("tls13 s hs traffic"@), context, len);
    reveal_strlit("c ap traffic");
    reveal_strlit("tls13 c ap traffic");
    ascii_is_sent_as_it_is("c ap traffic"@);
    assert(ascii("tls13 c ap traffic"@) =~= prefix + ascii("c ap traffic"@));
    one_label(hash, secret, ascii("c ap traffic"@), ascii("tls13 c ap traffic"@), context, len);
    reveal_strlit("s ap traffic");
    reveal_strlit("tls13 s ap traffic");
    ascii_is_sent_as_it_is("s ap traffic"@);
    assert(ascii("tls13 s ap traffic"@) =~= prefix + ascii("s ap traffic"@));
    one_label(hash, secret, ascii("s ap traffic"@), ascii("tls13 s ap traffic"@), context, len);
    reveal_strlit("derived");
    reveal_strlit("tls13 derived");
    ascii_is_sent_as_it_is("derived"@);
    assert(ascii("tls13 derived"@) =~= prefix + ascii("derived"@));
    one_label(hash, secret, ascii("derived"@), ascii("tls13 derived"@), context, len);
    reveal_strlit("finished");
    reveal_strlit("tls13 finished");
    ascii_is_sent_as_it_is("finished"@);
    assert(ascii("tls13 finished"@) =~= prefix + ascii("finished"@));
    one_label(hash, secret, ascii("finished"@), ascii("tls13 finished"@), context, len);
    reveal_strlit("key");
    reveal_strlit("tls13 key");
    ascii_is_sent_as_it_is("key"@);
    assert(ascii("tls13 key"@) =~= prefix + ascii("key"@));
    one_label(hash, secret, ascii("key"@), ascii("tls13 key"@), context, len);
    reveal_strlit("iv");
    reveal_strlit("tls13 iv");
    ascii_is_sent_as_it_is("iv"@);
    assert(ascii("tls13 iv"@) =~= prefix + ascii("iv"@));
    one_label(hash, secret, ascii("iv"@), ascii("tls13 iv"@), context, len);
}

/// The secrets of the traffic: those of the client have the labels with a c, those of the server the
/// labels with an s. Those of the handshake come from the handshake secret, those of the application
/// data from the master secret, and all of them from the hash of the transcript.
pub proof fn traffic_secrets(
    hash: HashKind,
    shared: Seq<u8>,
    master: Seq<u8>,
    transcript: Seq<u8>,
)
    requires
        digest_of(hash, transcript).len() == hash_len(hash),
    ensures
        ({
            let n = hash_len(hash);
            let seen = digest_of(hash, transcript);
            let secret = handshake_secret(hash, shared);
            &&& client_hs_secret(hash, shared, transcript) == hmac_of(
                hash,
                secret,
                expand_input(n as u8, ascii("tls13 c hs traffic"@), seen),
            ).take(n as int)
            &&& server_hs_secret(hash, shared, transcript) == hmac_of(
                hash,
                secret,
                expand_input(n as u8, ascii("tls13 s hs traffic"@), seen),
            ).take(n as int)
            &&& client_ap_secret(hash, master, transcript) == hmac_of(
                hash,
                master,
                expand_input(n as u8, ascii("tls13 c ap traffic"@), seen),
            ).take(n as int)
            &&& server_ap_secret(hash, master, transcript) == hmac_of(
                hash,
                master,
                expand_input(n as u8, ascii("tls13 s ap traffic"@), seen),
            ).take(n as int)
        }),
{
    let seen = digest_of(hash, transcript);
    labels_expand(hash, handshake_secret(hash, shared), seen, hash_len(hash));
    labels_expand(hash, master, seen, hash_len(hash));
}

/// The chain of secrets: from nothing but zeros, by way of the shared secret, to the master secret;
/// each link but the first is derived from the hash of nothing.
pub proof fn secret_chain(hash: HashKind, shared: Seq<u8>)
    requires
        digest_of(hash, Seq::empty()).len() == hash_len(hash),
    ensures
        ({
            let n = hash_len(hash);
            let zero = Seq::new(n, |i: int| 0u8);
            let input = expand_input(
                n as u8,
                ascii("tls13 derived"@),
                digest_of(hash, Seq::empty()),
            );
            let early = hmac_of(hash, zero, zero);
            let handshake = hmac_of(hash, hmac_of(hash, early, input).take(n as int), shared);
            &&& handshake_secret(hash, shared) == handshake
            &&& master_secret(hash, shared) == hmac_of(
                hash,
                hmac_of(hash, handshake, input).take(n as int),
                zero,
            )
        }),
{
    let n = hash_len(hash);
    let zero = Seq::new(n, |i: int| 0u8);
    assert(zeros(n) =~= zero);
    let early = hmac_of(hash, zero, zero);
    labels_expand(hash, early, digest_of(hash, Seq::empty()), n);
    labels_expand(hash, handshake_secret(hash, shared), digest_of(hash, Seq::empty()), n);
}

/// A Finished message holds the authentication code of the hash of the transcript, under the key
/// that the traffic secret gives for it.
pub proof fn finished_is_a_code(hash: HashKind, secret: Seq<u8>, transcript: Seq<u8>)
    ensures
        finished_data(hash, secret, transcript) == hmac_of(
            hash,
            hmac_of(
                hash,
                secret,
                expand_input(hash_len(hash) as u8, ascii("tls13 finished"@), Seq::empty()),
            ).take(hash_len(hash) as int),
            digest_of(hash, transcript),
        ),
{
    labels_expand(hash, secret, Seq::empty(), hash_len(hash));
}

/// The key and the vector that a traffic secret gives, and the number of the first record.
pub proof fn record_keys(k: RecordKey, suite: CipherSuite, secret: Seq<u8>)
    requires
        key_from(k, suite, secret),
    ensures
        k.suite == suite,
        k.seq == 0,
        k.key@ == hmac_of(
            suite_hash(suite),
            secret,
            expand_input(suite_key_len(suite) as u8, ascii("tls13 key"@), Seq::empty()),
        ).take(suite_key_len(suite) as int),
        k.iv@ == hmac_of(
            suite_hash(suite),
            secret,
            expand_input(12, ascii("tls13 iv"@), Seq::empty()),
        ).take(12),
{
    labels_expand(suite_hash(suite), secret, Seq::empty(), suite_key_len(suite));
    labels_expand(suite_hash(suite), secret, Seq::empty(), 12);
}

/// The client writes with the key of the client and reads with that of the server. Its last message
/// of the handshake is its own Finished, under the key of its handshake.
pub proof fn client_writes_with_its_own_key(c: Connected, f: ServerFlight, t: Seq<u8>)
    requires
        connected(c, f, t),
        digest_of(suite_hash(f.suite), t).len() == hash_len(suite_hash(f.suite)),
    ensures
        ({
            let hash = suite_hash(f.suite);
            let n = hash_len(hash);
            let seen = digest_of(hash, t);
            let own = hmac_of(
                hash,
                f.master_secret@,
                expand_input(n as u8, ascii("tls13 c ap traffic"@), seen),
            ).take(n as int);
            let other = hmac_of(
                hash,
                f.master_secret@,
                expand_input(n as u8, ascii("tls13 s ap traffic"@), seen),
            ).take(n as int);
            let data = finished_data(hash, f.client_secret@, t);
            &&& key_from(c.write_key, f.suite, own)
            &&& key_from(c.read_key, f.suite, other)
            &&& c.record@ == sealed_record(
                f.suite,
                f.client.key@,
                nonce_of(f.client.iv@, 0),
                22,
                seq![20u8] + be_bytes(data.len(), 3) + data,
            )
        }),
{
    traffic_secrets(suite_hash(f.suite), Seq::empty(), f.master_secret@, t);
}

// ---- records ----

/// The nonce of a record: the vector, with the number of the record over its last eight bytes, in
/// network order.
pub proof fn nonces_count(iv: Seq<u8>, seq: u64)
    requires
        iv.len() == 12,
    ensures
        ({
            let n = nonce_of(iv, seq as nat);
            &&& n.len() == 12
            &&& n.take(4) == iv.take(4)
            &&& n[11] == iv[11] ^ ((seq % 256) as u8)
            &&& n[10] == iv[10] ^ ((seq / 256 % 256) as u8)
            &&& n[9] == iv[9] ^ ((seq / 0x1_0000 % 256) as u8)
            &&& n[8] == iv[8] ^ ((seq / 0x100_0000 % 256) as u8)
            &&& n[7] == iv[7] ^ ((seq / 0x1_0000_0000 % 256) as u8)
            &&& n[6] == iv[6] ^ ((seq / 0x1_0000_0000 / 256 % 256) as u8)
            &&& n[5] == iv[5] ^ ((seq / 0x1_0000_0000 / 0x1_0000 % 256) as u8)
            &&& n[4] == iv[4] ^ ((seq / 0x1_0000_0000 / 0x100_0000 % 256) as u8)
        }),
{
    let n = nonce_of(iv, seq as nat);
    network_order_of_eight(seq as nat);
    assert(n.take(4) =~= iv.take(4));
    let b = be_bytes(seq as nat, 8);
    let high = four(seq as nat / 0x1_0000_0000);
    let low = four(seq as nat);
    assert(b =~= high + low);
    assert(b[0] == high[0] && b[1] == high[1] && b[2] == high[2] && b[3] == high[3]);
    assert(b[4] == low[0] && b[5] == low[1] && b[6] == low[2] && b[7] == low[3]);
}

/// A protected record looks like application data of version 3.3. Its length counts the content, a
/// byte for its type and a tag, and all of that is sealed with the header beside it.
pub proof fn protected_records(
    suite: CipherSuite,
    key: Seq<u8>,
    nonce: Seq<u8>,
    kind: u8,
    content: Seq<u8>,
)
    ensures
        ({
            let header = seq![23u8, 3u8, 3u8] + two(content.len() + 17);
            sealed_record(suite, key, nonce, kind, content) == header + sealed(
                suite_aead(suite),
                key,
                nonce,
                header,
                content.push(kind),
            )
        }),
{
    network_order(content.len() + 17);
    assert(record_header(content.len() + 17) =~= seq![23u8, 3u8, 3u8] + two(content.len() + 17));
}

proof fn zeros_do_not_count(content: Seq<u8>, kind: u8, pad: nat)
    requires
        kind != 0,
    ensures
        content_end(content.push(kind) + zeros(pad)) == content.len(),
    decreases pad,
{
    let body = content.push(kind) + zeros(pad);
    if pad == 0 {
        assert(body =~= content.push(kind));
    } else {
        assert(body.drop_last() =~= content.push(kind) + zeros((pad - 1) as nat));
        zeros_do_not_count(content, kind, (pad - 1) as nat);
    }
}

/// What is opened is the content up to its type, and zeros behind the type do not count. A text
/// shorter than a tag, one that does not open, and one without a type are refused.
pub proof fn records_are_opened(
    suite: CipherSuite,
    key: Seq<u8>,
    nonce: Seq<u8>,
    header: Seq<u8>,
    text: Seq<u8>,
    content: Seq<u8>,
    kind: u8,
    pad: nat,
)
    requires
        kind != 0,
    ensures
        ({
            let body = opened(suite_aead(suite), key, nonce, header, text);
            let res = opened_record(suite, key, nonce, header, text);
            &&& text.len() < 16 ==> res == Err::<(u8, Seq<u8>), RecordError>(RecordError::TooShort)
            &&& text.len() >= 16 && body is None ==> res == Err::<(u8, Seq<u8>), RecordError>(
                RecordError::Decrypt,
            )
            &&& text.len() >= 16 && body == Some(content.push(kind) + zeros(pad)) ==> res == Ok::<
                (u8, Seq<u8>),
                RecordError,
            >((kind, content))
            &&& text.len() >= 16 && body == Some(zeros(pad)) ==> res == Err::<
                (u8, Seq<u8>),
                RecordError,
            >(RecordError::MissingType)
        }),
{
    zeros_do_not_count(content, kind, pad);
    let body = content.push(kind) + zeros(pad);
    assert(body.take(content.len() as int) =~= content);
    assert(body[content.len() as int] == kind);
    only_zeros(pad);
}

proof fn only_zeros(pad: nat)
    ensures
        content_end(zeros(pad)) == -1,
    decreases pad,
{
    if pad > 0 {
        assert(zeros(pad).drop_last() =~= zeros((pad - 1) as nat));
        only_zeros((pad - 1) as nat);
    }
}

/// What a record is for is told by its types: only records of type 23 are opened, and of those
/// inside 23 is data, 21 an end, and any other nothing.
pub proof fn record_types(key: KeyState, raw: Seq<u8>)
    requires
        raw.len() >= 5,
    ensures
        ({
            let inner = opened_record(
                key.suite,
                key.key,
                nonce_of(key.iv, key.seq),
                raw.take(5),
                raw.skip(5),
            );
            let (event, data, _) = record_effect(key, raw);
            &&& raw[0] != 23 ==> event == ReadEvent::More && data.len() == 0
            &&& raw[0] == 23 ==> (match inner {
                Ok((kind, content)) => if kind == 23 {
                    data == content && (event == ReadEvent::Data <==> content.len() > 0) && (event
                        == ReadEvent::More <==> content.len() == 0)
                } else if kind == 21 {
                    data.len() == 0 && event == ReadEvent::Closed
                } else {
                    data.len() == 0 && event == ReadEvent::More
                },
                Err(e) => data.len() == 0 && event == ReadEvent::Failed(e),
            })
        }),
        MAX_RECORD == 18 * 1024,
        announced(raw) == raw[3] * 256 + raw[4],
        announced(raw) > 18432 ==> fed(key, raw).0 == ReadEvent::Failed(
            RecordError::TooLarge((raw[3] * 256 + raw[4]) as usize),
        ),
{
    network_value(raw.subrange(3, 5));
}

/// A plain record has its type, the version 3.1 and its length before it.
pub proof fn plain_records(kind: u8, payload: Seq<u8>)
    ensures
        plain_record(kind, payload) == seq![kind, 3u8, 1u8] + two(payload.len()) + payload,
{
    network_order(payload.len());
}

// ---- what the client says ----

/// The extension of that type in a list of extensions, from `pos` on.
pub open spec fn extension(exts: Seq<u8>, pos: int, typ: nat) -> Option<Seq<u8>>
    decreases exts.len() - pos,
{
    if pos < 0 || pos + 4 > exts.len() {
        None
    } else {
        let n = exts[pos + 2] * 256 + exts[pos + 3];
        if pos + 4 + n > exts.len() {
            None
        } else if exts[pos] * 256 + exts[pos + 1] == typ {
            Some(exts.subrange(pos + 4, pos + 4 + n))
        } else {
            extension(exts, pos + 4 + n, typ)
        }
    }
}

proof fn next_extension(before: Seq<u8>, typ: u16, data: Seq<u8>, rest: Seq<u8>, want: nat)
    requires
        data.len() <= 65535,
    ensures
        ({
            let exts = before + (ext(typ, data) + rest);
            extension(exts, before.len() as int, want) == if typ == want {
                Some(data)
            } else {
                extension(exts, (before.len() + 4 + data.len()) as int, want)
            }
        }),
        ext(typ, data).len() == 4 + data.len(),
        before + (ext(typ, data) + rest) == (before + ext(typ, data)) + rest,
{
    reveal(ext);
    network_order(typ as nat);
    network_order(data.len());
    let e = ext(typ, data);
    let exts = before + (e + rest);
    let p = before.len() as int;
    assert(e =~= two(typ as nat) + two(data.len()) + data);
    assert(exts[p] == e[0] && exts[p + 1] == e[1] && exts[p + 2] == e[2] && exts[p + 3] == e[3]);
    assert(exts.subrange(p + 4, p + 4 + data.len()) =~= data);
    assert(exts =~= (before + e) + rest);
}

/// Extensions one after another.
pub open spec fn ext_list(items: Seq<(u16, Seq<u8>)>) -> Seq<u8>
    decreases items.len(),
{
    if items.len() == 0 {
        Seq::empty()
    } else {
        ext(items[0].0, items[0].1) + ext_list(items.skip(1))
    }
}

/// The first item of that type.
pub open spec fn first_of(items: Seq<(u16, Seq<u8>)>, typ: nat) -> Option<Seq<u8>>
    decreases items.len(),
{
    if items.len() == 0 {
        None
    } else if items[0].0 == typ {
        Some(items[0].1)
    } else {
        first_of(items.skip(1), typ)
    }
}

proof fn lists_are_walked(before: Seq<u8>, items: Seq<(u16, Seq<u8>)>, typ: nat)
    requires
        forall|i: int| 0 <= i < items.len() ==> (#[trigger] items[i]).1.len() <= 65535,
    ensures
        extension(before + ext_list(items), before.len() as int, typ) == first_of(items, typ),
    decreases items.len(),
{
    if items.len() == 0 {
        assert(before + ext_list(items) =~= before);
    } else {
        let e = ext(items[0].0, items[0].1);
        let rest = items.skip(1);
        assert(items[0].1.len() <= 65535);
        assert forall|i: int| 0 <= i < rest.len() implies (#[trigger] rest[i]).1.len() <= 65535 by {
            assert(rest[i] == items[i + 1]);
        }
        next_extension(before, items[0].0, items[0].1, ext_list(rest), typ);
        lists_are_walked(before + e, rest, typ);
    }
}

/// The extensions of the hello, as a list.
spec fn hello_items(name: Seq<u8>, alpn: Seq<String>, key: Seq<u8>) -> Seq<(u16, Seq<u8>)> {
    seq![
        (0u16, server_name_data(name)),
        (10u16, u16_list_data(seq![0x1du16, 0x17, 0x18])),
        (11u16, seq![1u8, 0u8]),
        (13u16, u16_list_data(seq![0x0807u16, 0x0403, 0x0804, 0x0805])),
    ] + (if alpn.len() > 0 {
        seq![(16u16, alpn_data(crate::text::texts(alpn)))]
    } else {
        Seq::empty()
    }) + seq![
        (35u16, Seq::<u8>::empty()),
        (43u16, seq![4u8, 3u8, 4u8, 3u8, 3u8]),
        (45u16, seq![1u8, 1u8]),
        (51u16, key_share_data(key)),
    ]
}

/// Lists of extensions that follow each other are one list.
pub proof fn lists_add_up(a: Seq<(u16, Seq<u8>)>, b: Seq<(u16, Seq<u8>)>)
    ensures
        ext_list(a + b) == ext_list(a) + ext_list(b),
    decreases a.len(),
{
    if a.len() == 0 {
        assert(a + b =~= b);
        assert(ext_list(a) + ext_list(b) =~= ext_list(b));
    } else {
        assert((a + b).skip(1) =~= a.skip(1) + b);
        lists_add_up(a.skip(1), b);
        let e = ext(a[0].0, a[0].1);
        assert(e + (ext_list(a.skip(1)) + ext_list(b)) =~= (e + ext_list(a.skip(1))) + ext_list(b));
    }
}

proof fn list_of_four(a: (u16, Seq<u8>), b: (u16, Seq<u8>), c: (u16, Seq<u8>), d: (u16, Seq<u8>))
    ensures
        ext_list(seq![a, b, c, d]) == ext(a.0, a.1) + ext(b.0, b.1) + ext(c.0, c.1) + ext(d.0, d.1),
{
    let s = seq![a, b, c, d];
    reveal_with_fuel(ext_list, 5);
    assert(s.skip(1) =~= seq![b, c, d]);
    assert(seq![b, c, d].skip(1) =~= seq![c, d]);
    assert(seq![c, d].skip(1) =~= seq![d]);
    assert(seq![d].skip(1) =~= Seq::<(u16, Seq<u8>)>::empty());
    assert(ext_list(s) =~= ext(a.0, a.1) + ext(b.0, b.1) + ext(c.0, c.1) + ext(d.0, d.1));
}

proof fn hello_is_a_list(name: Seq<u8>, alpn: Seq<String>, key: Seq<u8>)
    ensures
        hello_exts(name, alpn, key) == ext_list(hello_items(name, alpn, key)),
{
    let a = (0u16, server_name_data(name));
    let b = (10u16, u16_list_data(seq![0x1du16, 0x17, 0x18]));
    let c = (11u16, seq![1u8, 0u8]);
    let d = (13u16, u16_list_data(seq![0x0807u16, 0x0403, 0x0804, 0x0805]));
    let e = (35u16, Seq::<u8>::empty());
    let f = (43u16, seq![4u8, 3u8, 4u8, 3u8, 3u8]);
    let g = (45u16, seq![1u8, 1u8]);
    let h = (51u16, key_share_data(key));
    let mid: Seq<(u16, Seq<u8>)> = if alpn.len() > 0 {
        seq![(16u16, alpn_data(crate::text::texts(alpn)))]
    } else {
        Seq::empty()
    };
    let x: Seq<u8> = if alpn.len() > 0 {
        ext(16, alpn_data(crate::text::texts(alpn)))
    } else {
        Seq::empty()
    };
    list_of_four(a, b, c, d);
    list_of_four(e, f, g, h);
    reveal_with_fuel(ext_list, 2);
    if alpn.len() > 0 {
        assert(mid.skip(1) =~= Seq::<(u16, Seq<u8>)>::empty());
        assert(x + Seq::<u8>::empty() =~= x);
    }
    assert(ext_list(mid) == x);
    lists_add_up(seq![a, b, c, d], mid);
    lists_add_up(seq![a, b, c, d] + mid, seq![e, f, g, h]);
    let front = ext(a.0, a.1) + ext(b.0, b.1) + ext(c.0, c.1) + ext(d.0, d.1) + x;
    assert(front + (ext(e.0, e.1) + ext(f.0, f.1) + ext(g.0, g.1) + ext(h.0, h.1)) =~= front + ext(
        e.0,
        e.1,
    ) + ext(f.0, f.1) + ext(g.0, g.1) + ext(h.0, h.1));
}

proof fn items_are_found(name: Seq<u8>, alpn: Seq<String>, key: Seq<u8>)
    ensures
        ({
            let items = hello_items(name, alpn, key);
            &&& first_of(items, 0) == Some(server_name_data(name))
            &&& first_of(items, 10) == Some(u16_list_data(seq![0x1du16, 0x17, 0x18]))
            &&& first_of(items, 13) == Some(
                u16_list_data(seq![0x0807u16, 0x0403, 0x0804, 0x0805]),
            )
            &&& first_of(items, 43) == Some(seq![4u8, 3u8, 4u8, 3u8, 3u8])
            &&& first_of(items, 51) == Some(key_share_data(key))
            &&& first_of(items, 16) == if alpn.len() > 0 {
                Some(alpn_data(crate::text::texts(alpn)))
            } else {
                None
            }
        }),
{
    let items = hello_items(name, alpn, key);
    reveal_with_fuel(first_of, 11);
    let s1 = items.skip(1);
    let s2 = s1.skip(1);
    let s3 = s2.skip(1);
    let s4 = s3.skip(1);
    let s5 = s4.skip(1);
    let s6 = s5.skip(1);
    let s7 = s6.skip(1);
    let s8 = s7.skip(1);
    assert(s1[0] == items[1]);
    assert(s2[0] == items[2]);
    assert(s3[0] == items[3]);
    assert(s4[0] == items[4]);
    assert(s5[0] == items[5]);
    assert(s6[0] == items[6]);
    assert(s7[0] == items[7]);
    if alpn.len() > 0 {
        assert(items.len() == 9);
        assert(s8[0] == items[8]);
        assert(s8.skip(1).len() == 0);
    } else {
        assert(items.len() == 8);
        assert(s8.len() == 0);
    }
}

/// A server that reads the extensions of the hello finds the name, the groups with X25519 first, the
/// signatures, the protocols where there are any, both versions with TLS 1.3 first, and the key of
/// the client as a share of X25519.
pub proof fn extensions_are_read(name: Seq<u8>, alpn: Seq<String>, key: Seq<u8>)
    requires
        name.len() <= 60000,
        alpn_list(crate::text::texts(alpn)).len() <= 60000,
        key.len() == 32,
    ensures
        ({
            let exts = hello_exts(name, alpn, key);
            &&& extension(exts, 0, 0) == Some(
                two(name.len() + 3) + seq![0u8] + two(name.len()) + name,
            )
            &&& extension(exts, 0, 10) == Some(seq![0u8, 6, 0, 0x1d, 0, 0x17, 0, 0x18])
            &&& extension(exts, 0, 13) == Some(
                seq![0u8, 8, 0x08, 0x07, 0x04, 0x03, 0x08, 0x04, 0x08, 0x05],
            )
            &&& extension(exts, 0, 43) == Some(seq![4u8, 3, 4, 3, 3])
            &&& extension(exts, 0, 51) == Some(seq![0u8, 36, 0, 0x1d, 0, 32] + key)
            &&& alpn.len() == 0 ==> extension(exts, 0, 16) is None
            &&& alpn.len() > 0 ==> extension(exts, 0, 16) == Some(
                alpn_data(crate::text::texts(alpn)),
            )
        }),
{
    let items = hello_items(name, alpn, key);
    let none = Seq::<u8>::empty();
    fixed_lists(name, key);
    protocols_are_listed(crate::text::texts(alpn));
    hello_is_a_list(name, alpn, key);
    items_are_found(name, alpn, key);
    assert(none + ext_list(items) =~= ext_list(items));
    assert forall|i: int| 0 <= i < items.len() implies (#[trigger] items[i]).1.len() <= 65535 by {
        if alpn.len() > 0 {
            assert(items.len() == 9);
        } else {
            assert(items.len() == 8);
        }
    }
    lists_are_walked(none, items, 0);
    lists_are_walked(none, items, 10);
    lists_are_walked(none, items, 13);
    lists_are_walked(none, items, 16);
    lists_are_walked(none, items, 43);
    lists_are_walked(none, items, 51);
}

proof fn fixed_lists(name: Seq<u8>, key: Seq<u8>)
    requires
        key.len() == 32,
    ensures
        u16_list_data(seq![0x1du16, 0x17, 0x18]) == seq![0u8, 6, 0, 0x1d, 0, 0x17, 0, 0x18],
        u16_list_data(seq![0x0807u16, 0x0403, 0x0804, 0x0805]) == seq![
            0u8,
            8,
            0x08,
            0x07,
            0x04,
            0x03,
            0x08,
            0x04,
            0x08,
            0x05,
        ],
        key_share_data(key) == seq![0u8, 36, 0, 0x1d, 0, 32] + key,
        server_name_data(name) == two(name.len() + 3) + seq![0u8] + two(name.len()) + name,
{
    let g = seq![0x1du16, 0x17, 0x18];
    let a = seq![0x0807u16, 0x0403, 0x0804, 0x0805];
    reveal_with_fuel(u16_items, 5);
    network_order(6);
    network_order(8);
    network_order(0x1d);
    network_order(0x17);
    network_order(0x18);
    network_order(0x0807);
    network_order(0x0403);
    network_order(0x0804);
    network_order(0x0805);
    network_order(32);
    network_order(36);
    network_order(name.len());
    network_order(name.len() + 3);
    assert(g.drop_last() =~= seq![0x1du16, 0x17]);
    assert(g.drop_last().drop_last() =~= seq![0x1du16]);
    assert(g.drop_last().drop_last().drop_last() =~= Seq::<u16>::empty());
    assert(u16_list_data(g) =~= seq![0u8, 6, 0, 0x1d, 0, 0x17, 0, 0x18]);
    assert(a.drop_last() =~= seq![0x0807u16, 0x0403, 0x0804]);
    assert(a.drop_last().drop_last() =~= seq![0x0807u16, 0x0403]);
    assert(a.drop_last().drop_last().drop_last() =~= seq![0x0807u16]);
    assert(a.drop_last().drop_last().drop_last().drop_last() =~= Seq::<u16>::empty());
    assert(u16_list_data(a) =~= seq![
        0u8,
        8,
        0x08,
        0x07,
        0x04,
        0x03,
        0x08,
        0x04,
        0x08,
        0x05,
    ]);
    assert(key_share_data(key) =~= seq![0u8, 36, 0, 0x1d, 0, 32] + key);
    assert(server_name_data(name) =~= two(name.len() + 3) + seq![0u8] + two(name.len()) + name);
}

/// The protocols are listed in order, each behind its length.
pub proof fn protocols_are_listed(alpn: Seq<Seq<char>>)
    ensures
        alpn_data(alpn) == two(alpn_list(alpn).len()) + alpn_list(alpn),
        alpn.len() == 0 ==> alpn_list(alpn).len() == 0,
        alpn.len() > 0 ==> ({
            let p = encode_utf8(alpn.last());
            alpn_list(alpn) == alpn_list(alpn.drop_last()) + (seq![(p.len() % 256) as u8] + p)
        }),
{
    network_order(alpn_list(alpn).len());
}

/// The hello is a message of type 1 with its length in three bytes: the version 3.3, the random
/// value, the session of 32 bytes, the three suites of TLS 1.3, no compression, and the extensions
/// behind their length.
pub proof fn hello_is_read(
    name: Seq<u8>,
    alpn: Seq<String>,
    random: Seq<u8>,
    session: Seq<u8>,
    key: Seq<u8>,
)
    requires
        random.len() == 32,
        session.len() == 32,
    ensures
        ({
            let m = hello_message(name, alpn, random, session, key);
            let exts = hello_exts(name, alpn, key);
            let n = 79 + exts.len();
            m == seq![1u8, (n / 0x1_0000 % 256) as u8] + two(n) + seq![3u8, 3u8] + random + seq![
                32u8,
            ] + session + seq![0u8, 6, 0x13, 0x01, 0x13, 0x02, 0x13, 0x03, 1, 0] + two(exts.len())
                + exts
        }),
{
    let m = hello_message(name, alpn, random, session, key);
    let exts = hello_exts(name, alpn, key);
    let n = 79 + exts.len();
    network_order(n);
    network_order(6);
    network_order(0x1301);
    network_order(0x1302);
    network_order(0x1303);
    network_order(exts.len());
    let body = crate::tls::client_hello::hello_body(name, alpn, random, session, key);
    assert(body.len() == n);
    assert(m =~= seq![1u8, (n / 0x1_0000 % 256) as u8] + two(n) + seq![3u8, 3u8] + random + seq![
        32u8,
    ] + session + seq![0u8, 6, 0x13, 0x01, 0x13, 0x02, 0x13, 0x03, 1, 0] + two(exts.len()) + exts);
}

/// The session of the hello hides the version 1.8.1, the time and the short identifier: sealed by
/// AES-256-GCM, under the key that the shared secret and the first 20 bytes of the random value
/// give, with the other 12 as the nonce.
pub proof fn session_is_hidden(
    name: Seq<u8>,
    alpn: Seq<String>,
    random: Seq<u8>,
    key: Seq<u8>,
    shared: Seq<u8>,
    short_id: Seq<u8>,
    unix: u32,
)
    ensures
        session_key(shared, random) == hmac_sha256_of(
            hmac_sha256_of(random.take(20), shared),
            ascii("REALITY"@) + seq![1u8],
        ).take(32),
        hidden_session(name, alpn, random, key, shared, short_id, unix) == sealed(
            Aead::Aes256Gcm,
            session_key(shared, random),
            random.skip(20),
            hello_message(name, alpn, random, Seq::new(32, |i: int| 0u8), key),
            seq![1u8, 8u8, 1u8, 0u8] + four(unix as nat) + short_id,
        ),
{
    reveal_strlit("REALITY");
    ascii_is_sent_as_it_is("REALITY"@);
    one_block(
        HashKind::Sha256,
        hmac_sha256_of(random.take(20), shared),
        ascii("REALITY"@),
        32,
    );
    network_order(unix as nat);
    assert(zeros(32) =~= Seq::new(32, |i: int| 0u8));
    assert(auth_payload(unix, short_id) =~= seq![1u8, 8u8, 1u8, 0u8] + four(unix as nat)
        + short_id);
}

/// A short identifier of up to eight bytes has zeros behind it up to eight.
pub proof fn short_ids_are_padded(id: Seq<u8>)
    requires
        id.len() <= 8,
    ensures
        padded_id(id).len() == 8,
        padded_id(id).take(id.len() as int) == id,
        forall|i: int| id.len() <= i < 8 ==> padded_id(id)[i] == 0,
{
    assert(padded_id(id).take(id.len() as int) =~= id);
}

// ---- what the server says ----

/// A message of the handshake: its type, its length and its body.
pub open spec fn message(kind: u8, body: Seq<u8>) -> Seq<u8> {
    seq![kind, (body.len() / 0x1_0000 % 256) as u8] + two(body.len()) + body
}

proof fn message_is_found(kind: u8, body: Seq<u8>, rest: Seq<u8>)
    requires
        body.len() < 0x100_0000,
    ensures
        message_len(message(kind, body) + rest) == Some(4 + body.len()),
        (message(kind, body) + rest).take(4 + body.len() as int) == message(kind, body),
        (message(kind, body) + rest).subrange(4, 4 + body.len() as int) == body,
        (message(kind, body) + rest).skip(4 + body.len() as int) == rest,
        (message(kind, body) + rest)[0] == kind,
{
    let s = message(kind, body) + rest;
    let n = 4 + body.len() as int;
    network_value(s.subrange(1, 4));
    assert(s.subrange(1, 4)[0] == (body.len() / 0x1_0000 % 256) as u8);
    assert(s.subrange(1, 4)[1] == (body.len() / 256 % 256) as u8);
    assert(s.subrange(1, 4)[2] == (body.len() % 256) as u8);
    assert(s.take(n) =~= message(kind, body));
    assert(s.subrange(4, n) =~= body);
    assert(s.skip(n) =~= rest);
}

/// What each message of the server does. The extensions, 8, and the proof of the certificate, 15,
/// are noted; the certificate, 11, is kept; tickets, 4, are passed over; Finished, 20, must fit all
/// that came before it, and any other is a fault. All but tickets count for the transcript.
pub proof fn messages_of_the_server(
    v: FlightView,
    hash: HashKind,
    secret: Seq<u8>,
    kind: u8,
    body: Seq<u8>,
    rest: Seq<u8>,
)
    requires
        body.len() < 0x100_0000,
        v.buf == message(kind, body) + rest,
    ensures
        ({
            let seen = v.transcript + message(kind, body);
            let got = drained(v, hash, secret);
            if kind == 8 {
                got == drained(
                    FlightView { transcript: seen, buf: rest, extensions: true, ..v },
                    hash,
                    secret,
                )
            } else if kind == 15 {
                got == drained(
                    FlightView { transcript: seen, buf: rest, verify: true, ..v },
                    hash,
                    secret,
                )
            } else if kind == 11 {
                match crate::tls::server_hello::leaf_certificate(body) {
                    Some(cert) => got == drained(
                        FlightView { transcript: seen, buf: rest, leaf: Some(cert), ..v },
                        hash,
                        secret,
                    ),
                    None => got == Drained::Fail(HandshakeError::BadCertificateMessage),
                }
            } else if kind == 4 {
                got == drained(FlightView { buf: rest, ..v }, hash, secret)
            } else if kind == 20 {
                if body == finished_data(hash, secret, v.transcript) {
                    got == Drained::Finished(FlightView { buf: rest, ..v }, message(kind, body))
                } else {
                    got == Drained::Fail(HandshakeError::FinishedMismatch)
                }
            } else {
                got == Drained::Fail(HandshakeError::UnexpectedMessage(kind))
            }
        }),
{
    message_is_found(kind, body, rest);
}

/// Only records of type 23 carry the encrypted part of the handshake, and of those inside only 22;
/// records of type 20 are passed over and an alert, 21, ends it.
pub proof fn handshake_records(
    v: FlightView,
    key: RecordKey,
    secret: Seq<u8>,
    auth_key: Seq<u8>,
    kind: u8,
    header: Seq<u8>,
    payload: Seq<u8>,
)
    ensures
        ({
            let got = flight_step(v, key, secret, auth_key, kind, header, payload);
            let inner = opened_record(
                key.suite,
                key.key@,
                nonce_of(key.iv@, key.seq as nat),
                header,
                payload,
            );
            &&& kind == 20 ==> got == Flight::ReadOn(v, 0)
            &&& kind != 20 && kind != 23 ==> got == Flight::Fail(
                HandshakeError::ExpectedEncrypted(kind),
            )
            &&& kind == 23 ==> (match inner {
                Err(e) => got == Flight::Fail(HandshakeError::Record(e)),
                Ok((t, c)) => if t == 22 {
                    got is Accept ==> message_len(v.buf + c) is Some
                } else if t == 21 {
                    got is Fail
                } else {
                    got == Flight::ReadOn(v, 1)
                },
            })
        }),
{
}

/// While the hello of the server is awaited, records of type 20 are passed over, and the hello must
/// fill one record of type 22.
pub proof fn plain_handshake_records(kind: u8, payload: Seq<u8>, expected: u8)
    ensures
        ({
            let got = plain_step(kind, payload, expected);
            &&& kind == 20 ==> got == Ok::<Option<Seq<u8>>, HandshakeError>(None)
            &&& kind != 20 && kind != 22 ==> got == Err::<Option<Seq<u8>>, HandshakeError>(
                HandshakeError::ExpectedHandshake(kind),
            )
            &&& kind == 22 ==> (got is Ok <==> payload.len() >= 4 && payload[0] == expected
                && payload.len() == 4 + payload[1] * 0x1_0000 + payload[2] * 256 + payload[3])
            &&& kind == 22 && got is Ok ==> got == Ok::<Option<Seq<u8>>, HandshakeError>(
                Some(payload),
            )
        }),
{
    if payload.len() >= 4 {
        network_value(payload.subrange(1, 4));
    }
}

} // verus!
