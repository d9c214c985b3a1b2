//! TLS 1.3 records: protection, framing, and the byte stream on top of them.

use crate::crypto::{aead_open, aead_seal, can_open, can_seal, opened, sealed, NONCE_LEN, TAG_LEN};
use crate::tls::keys::{
    client_ap_secret, client_hs_secret, expanded_label, hash_len, master_secret,
    server_ap_secret, server_hs_secret, suite_aead, suite_hash, suite_key_len, zeros, CipherSuite,
    HashKind,
};
use crate::wire::{
    be_bytes, be_bytes_len, be_bytes_mod, be_round_trip, be_value, byte_range, copy_range, put_bytes,
    put_u16, put_u64, read_u16,
};
use vstd::prelude::*;
use vstd::utf8::encode_utf8;

verus! {

pub const TLS_RECORD_CHANGE_CIPHER_SPEC: u8 = 20;

pub const TLS_RECORD_ALERT: u8 = 21;

pub const TLS_RECORD_HANDSHAKE: u8 = 22;

pub const TLS_RECORD_APPLICATION_DATA: u8 = 23;

/// The longest record that is read.
pub const MAX_RECORD: usize = 18432;

/// What can go wrong with a record.
#[derive(Clone, Copy, Debug, PartialEq, Eq, Structural)]
pub enum RecordError {
    /// The payload does not fit in a record.
    PayloadTooLarge,
    /// The record is longer than is accepted.
    TooLarge(usize),
    /// The ciphertext is shorter than a tag.
    TooShort,
    /// The cipher refuses the length.
    Encrypt,
    /// The record does not authenticate.
    Decrypt,
    /// The plaintext is nothing but padding.
    MissingType,
    /// The connection takes no more bytes.
    WriteZero,
}

/// The key of one direction, with the number of the next record.
pub struct RecordKey {
    pub suite: CipherSuite,
    pub key: Vec<u8>,
    pub iv: Vec<u8>,
    pub seq: u64,
}

/// The nonce of the record with the given number.
pub open spec fn nonce_of(iv: Seq<u8>, seq: nat) -> Seq<u8> {
    Seq::new(
        12,
        |i: int|
            if i < 4 {
                iv[i]
            } else {
                iv[i] ^ be_bytes(seq, 8)[i - 4]
            },
    )
}

/// The header of a protected record with a payload of `len` bytes.
pub open spec fn record_header(len: nat) -> Seq<u8> {
    seq![TLS_RECORD_APPLICATION_DATA, 3u8, 3u8] + be_bytes(len, 2)
}

/// Where the padding of an inner plaintext leaves off: the position of the last byte that
/// is not zero, or -1.
pub open spec fn content_end(body: Seq<u8>) -> int
    decreases body.len(),
{
    if body.len() == 0 {
        -1
    } else if body.last() != 0 {
        body.len() - 1
    } else {
        content_end(body.drop_last())
    }
}

/// The content type and the content of a protected record.
pub open spec fn opened_record(
    suite: CipherSuite,
    key: Seq<u8>,
    nonce: Seq<u8>,
    header: Seq<u8>,
    text: Seq<u8>,
) -> Result<(u8, Seq<u8>), RecordError> {
    if text.len() < TAG_LEN {
        Err(RecordError::TooShort)
    } else {
        match opened(suite_aead(suite), key, nonce, header, text) {
            None => Err(RecordError::Decrypt),
            Some(body) => if content_end(body) < 0 {
                Err(RecordError::MissingType)
            } else {
                Ok((body[content_end(body)], body.take(content_end(body))))
            },
        }
    }
}

/// The protected record of a content.
pub open spec fn sealed_record(
    suite: CipherSuite,
    key: Seq<u8>,
    nonce: Seq<u8>,
    kind: u8,
    content: Seq<u8>,
) -> Seq<u8> {
    let header = record_header(content.len() + 17);
    header + sealed(suite_aead(suite), key, nonce, header, content.push(kind))
}

/// No two records of one key share a nonce.
pub proof fn nonces_differ(iv: Seq<u8>, a: u64, b: u64)
    requires
        iv.len() == NONCE_LEN,
        nonce_of(iv, a as nat) == nonce_of(iv, b as nat),
    ensures
        a == b,
{
    be_bytes_len(a as nat, 8);
    be_bytes_len(b as nat, 8);
    let x = be_bytes(a as nat, 8);
    let y = be_bytes(b as nat, 8);
    assert forall|i: int| 0 <= i < 8 implies x[i] == y[i] by {
        let v = iv[i + 4];
        let p = x[i];
        let q = y[i];
        assert(nonce_of(iv, a as nat)[i + 4] == v ^ p);
        assert(nonce_of(iv, b as nat)[i + 4] == v ^ q);
        assert(v ^ p == v ^ q ==> p == q) by (bit_vector);
    }
    assert(x =~= y);
    reveal_with_fuel(byte_range, 9);
    assert(byte_range(8) == 0x1_0000_0000_0000_0000);
    be_round_trip(a as nat, 8);
    be_round_trip(b as nat, 8);
}

proof fn end_of_content(body: Seq<u8>, kind: u8, content: Seq<u8>)
    requires
        kind != 0,
        body == content.push(kind),
    ensures
        content_end(body) == content.len(),
        body[content_end(body)] == kind,
        body.take(content_end(body)) == content,
{
    assert(body.take(content.len() as int) =~= content);
}

proof fn content_end_range(body: Seq<u8>)
    ensures
        -1 <= content_end(body) < body.len(),
    decreases body.len(),
{
    if body.len() > 0 {
        content_end_range(body.drop_last());
    }
}

/// The header of the record that protects `body_len` bytes.
fn protected_header(body_len: usize) -> (out: Vec<u8>)
    ensures
        out@ == record_header(body_len as nat + 16),
        out@.len() == 5,
{
    let ghost len = body_len as nat + 16;
    let mut out: Vec<u8> = vec![TLS_RECORD_APPLICATION_DATA, 3u8, 3u8];
    put_u16(&mut out, ((body_len % 65536 + 16) % 65536) as u16);
    proof {
        reveal_with_fuel(byte_range, 3);
        assert(byte_range(2) == 65536);
        be_bytes_mod(len, 2);
        be_bytes_len(len, 2);
        assert(out@ =~= record_header(len));
    }
    out
}

impl RecordKey {
    pub open spec fn wf(&self) -> bool {
        &&& self.key@.len() == suite_key_len(self.suite)
        &&& self.iv@.len() == NONCE_LEN
    }

    /// The key that comes of a traffic secret.
    pub fn new(suite: CipherSuite, secret: &[u8]) -> (k: RecordKey)
        ensures
            k.wf(),
            k.suite == suite,
            k.key@ == expanded_label(
                suite_hash(suite),
                secret@,
                encode_utf8("key"@),
                Seq::empty(),
                suite_key_len(suite),
            ),
            k.iv@ == expanded_label(
                suite_hash(suite),
                secret@,
                encode_utf8("iv"@),
                Seq::empty(),
                12,
            ),
            k.seq == 0,
    {
        let hash: HashKind = suite.hash_kind();
        let empty: Vec<u8> = Vec::new();
        assert(empty@ =~= Seq::empty());
        let key: Vec<u8> = hash.hkdf_expand_label(secret, "key".as_bytes(), &empty, suite.key_len());
        let iv: Vec<u8> = hash.hkdf_expand_label(secret, "iv".as_bytes(), &empty, 12);
        RecordKey { suite, key, iv, seq: 0 }
    }

    fn next_nonce(&mut self) -> (nonce: Vec<u8>)
        requires
            old(self).wf(),
            old(self).seq < u64::MAX,
        ensures
            nonce@ == nonce_of(old(self).iv@, old(self).seq as nat),
            final(self).seq == old(self).seq + 1,
            final(self).suite == old(self).suite,
            final(self).key == old(self).key,
            final(self).iv == old(self).iv,
    {
        let mut count: Vec<u8> = Vec::new();
        put_u64(&mut count, self.seq);
        proof {
            be_bytes_len(self.seq as nat, 8);
            assert(count@ =~= be_bytes(self.seq as nat, 8));
        }
        let mut nonce: Vec<u8> = Vec::new();
        let mut i: usize = 0;
        while i < 12
            invariant
                i <= 12,
                self.iv@.len() == 12,
                count@.len() == 8,
                count@ == be_bytes(self.seq as nat, 8),
                nonce@ == nonce_of(self.iv@, self.seq as nat).take(i as int),
            decreases 12 - i,
        {
            let b: u8 = if i < 4 {
                self.iv[i]
            } else {
                self.iv[i] ^ count[i - 4]
            };
            nonce.push(b);
            i += 1;
            assert(nonce@ =~= nonce_of(self.iv@, self.seq as nat).take(i as int));
        }
        assert(nonce@ =~= nonce_of(self.iv@, self.seq as nat));
        self.seq = self.seq + 1;
        nonce
    }

    /// Protects a content of the given type.
    pub fn seal(&mut self, inner_type: u8, plaintext: &[u8]) -> (res: Result<Vec<u8>, RecordError>)
        requires
            old(self).wf(),
            old(self).seq < u64::MAX,
        ensures
            final(self).wf(),
            final(self).suite == old(self).suite,
            final(self).key@ == old(self).key@,
            final(self).iv@ == old(self).iv@,
            final(self).seq == old(self).seq + 1,
            match res {
                Ok(record) => can_seal(suite_aead(old(self).suite), plaintext@.len() + 1, 5)
                    && record@ == sealed_record(
                    old(self).suite,
                    old(self).key@,
                    nonce_of(old(self).iv@, old(self).seq as nat),
                    inner_type,
                    plaintext@,
                ) && record@.len() == plaintext@.len() + 22 && (inner_type != 0 ==> opened_record(
                    old(self).suite,
                    old(self).key@,
                    nonce_of(old(self).iv@, old(self).seq as nat),
                    record@.take(5),
                    record@.skip(5),
                ) == Ok::<(u8, Seq<u8>), RecordError>((inner_type, plaintext@))),
                Err(e) => e == RecordError::Encrypt && !can_seal(
                    suite_aead(old(self).suite),
                    plaintext@.len() + 1,
                    5,
                ),
            },
    {
        let mut body: Vec<u8> = Vec::new();
        put_bytes(&mut body, plaintext);
        body.push(inner_type);
        assert(body@ =~= plaintext@.push(inner_type));
        let mut out: Vec<u8> = protected_header(body.len());
        let nonce: Vec<u8> = self.next_nonce();
        match aead_seal(self.suite.aead(), &self.key, &nonce, &out, &body) {
            Some(text) => {
                let ghost header = out@;
                put_bytes(&mut out, &text);
                proof {
                    assert(out@.take(5) =~= header);
                    assert(out@.skip(5) =~= text@);
                    if inner_type != 0 {
                        end_of_content(body@, inner_type, plaintext@);
                    }
                }
                Ok(out)
            },
            None => Err(RecordError::Encrypt),
        }
    }

    /// Opens a protected record: its content type and content. What was sealed under the same
    /// key with the same number comes out as it went in.
    pub fn open(&mut self, header: &[u8], ciphertext: &[u8]) -> (res: Result<
        (u8, Vec<u8>),
        RecordError,
    >)
        requires
            old(self).wf(),
            old(self).seq < u64::MAX,
        ensures
            final(self).wf(),
            final(self).suite == old(self).suite,
            final(self).key@ == old(self).key@,
            final(self).iv@ == old(self).iv@,
            final(self).seq == if ciphertext@.len() < TAG_LEN {
                old(self).seq as int
            } else {
                old(self).seq + 1
            },
            match (
                res,
                opened_record(
                    old(self).suite,
                    old(self).key@,
                    nonce_of(old(self).iv@, old(self).seq as nat),
                    header@,
                    ciphertext@,
                ),
            ) {
                (Ok((t, p)), Ok((u, q))) => t == u && p@ == q,
                (Err(e), Err(f)) => e == f,
                _ => false,
            },
            forall|kind: u8, content: Seq<u8>|
                kind != 0 && can_open(
                    suite_aead(old(self).suite),
                    ciphertext@.len(),
                    header@.len(),
                ) && content.len() + 1 + TAG_LEN == ciphertext@.len() && #[trigger] sealed(
                    suite_aead(old(self).suite),
                    old(self).key@,
                    nonce_of(old(self).iv@, old(self).seq as nat),
                    header@,
                    content.push(kind),
                ) == ciphertext@ ==> (res matches Ok((t, p)) && t == kind && p@ == content),
    {
        if ciphertext.len() < TAG_LEN {
            return Err(RecordError::TooShort);
        }
        let nonce: Vec<u8> = self.next_nonce();
        let body: Vec<u8> = match aead_open(
            self.suite.aead(),
            &self.key,
            &nonce,
            header,
            ciphertext,
        ) {
            Some(b) => b,
            None => {
                return Err(RecordError::Decrypt);
            },
        };
        proof {
            content_end_range(body@);
            assert forall|kind: u8, content: Seq<u8>|
                kind != 0 && body@ == #[trigger] content.push(kind) implies content_end(body@)
                == content.len() && body@[content_end(body@)] == kind && body@.take(
                content_end(body@),
            ) == content by {
                end_of_content(body@, kind, content);
            }
        }
        let mut end: usize = body.len();
        assert(body@.take(end as int) =~= body@);
        while end > 0 && body[end - 1] == 0
            invariant
                end <= body@.len(),
                content_end(body@) == content_end(body@.take(end as int)),
            decreases end,
        {
            assert(body@.take(end as int).drop_last() =~= body@.take(end - 1));
            end -= 1;
        }
        if end == 0 {
            return Err(RecordError::MissingType);
        }
        assert(body@.take(end as int).last() == body@[end - 1]);
        let kind: u8 = body[end - 1];
        let content: Vec<u8> = copy_range(&body, 0, end - 1);
        assert(content@ =~= body@.take(end - 1));
        Ok((kind, content))
    }
}

// ---- traffic keys ----

/// The keys of the handshake and the secrets that later keys come from.
pub struct HandshakeKeys {
    pub client: RecordKey,
    pub server: RecordKey,
    pub client_secret: Vec<u8>,
    pub server_secret: Vec<u8>,
    pub master_secret: Vec<u8>,
}

/// The keys of the application data.
pub struct ApplicationKeys {
    pub client: RecordKey,
    pub server: RecordKey,
}

/// `k` is the fresh key of a traffic secret.
pub open spec fn key_from(k: RecordKey, suite: CipherSuite, secret: Seq<u8>) -> bool {
    &&& k.wf()
    &&& k.suite == suite
    &&& k.seq == 0
    &&& k.key@ == expanded_label(
        suite_hash(suite),
        secret,
        encode_utf8("key"@),
        Seq::empty(),
        suite_key_len(suite),
    )
    &&& k.iv@ == expanded_label(suite_hash(suite), secret, encode_utf8("iv"@), Seq::empty(), 12)
}

impl HandshakeKeys {
    /// Derives the keys of the handshake from the shared secret and the two hellos.
    pub fn derive(cipher: CipherSuite, shared_secret: &[u8], transcript: &[u8]) -> (keys:
        HandshakeKeys)
        ensures
            keys.client_secret@ == client_hs_secret(
                suite_hash(cipher),
                shared_secret@,
                transcript@,
            ),
            keys.server_secret@ == server_hs_secret(
                suite_hash(cipher),
                shared_secret@,
                transcript@,
            ),
            keys.master_secret@ == master_secret(suite_hash(cipher), shared_secret@),
            key_from(keys.client, cipher, keys.client_secret@),
            key_from(keys.server, cipher, keys.server_secret@),
    {
        let hash: HashKind = cipher.hash_kind();
        let mut zero: Vec<u8> = Vec::new();
        while zero.len() < hash.output_len()
            invariant
                zero@.len() <= hash_len(hash),
                zero@ =~= zeros(zero@.len()),
            decreases hash_len(hash) - zero@.len(),
        {
            zero.push(0);
        }
        assert(zero@ =~= zeros(hash_len(hash)));
        let nothing: Vec<u8> = Vec::new();
        assert(nothing@ =~= Seq::empty());
        let empty_hash: Vec<u8> = hash.digest(&nothing);
        let early: Vec<u8> = hash.hkdf_extract(&zero, &zero);
        let derived: Vec<u8> = hash.derive_secret(&early, "derived".as_bytes(), &empty_hash);
        let secret: Vec<u8> = hash.hkdf_extract(&derived, shared_secret);
        let transcript_hash: Vec<u8> = hash.digest(transcript);
        let client_secret: Vec<u8> = hash.derive_secret(
            &secret,
            "c hs traffic".as_bytes(),
            &transcript_hash,
        );
        let server_secret: Vec<u8> = hash.derive_secret(
            &secret,
            "s hs traffic".as_bytes(),
            &transcript_hash,
        );
        let derived2: Vec<u8> = hash.derive_secret(&secret, "derived".as_bytes(), &empty_hash);
        let master: Vec<u8> = hash.hkdf_extract(&derived2, &zero);
        HandshakeKeys {
            client: RecordKey::new(cipher, &client_secret),
            server: RecordKey::new(cipher, &server_secret),
            client_secret,
            server_secret,
            master_secret: master,
        }
    }
}

impl ApplicationKeys {
    /// Derives the keys of the application data from the transcript up to the server's
    /// Finished message.
    pub fn derive(cipher: CipherSuite, master: &[u8], transcript: &[u8]) -> (keys: ApplicationKeys)
        ensures
            key_from(
                keys.client,
                cipher,
                client_ap_secret(suite_hash(cipher), master@, transcript@),
            ),
            key_from(
                keys.server,
                cipher,
                server_ap_secret(suite_hash(cipher), master@, transcript@),
            ),
    {
        let hash: HashKind = cipher.hash_kind();
        let transcript_hash: Vec<u8> = hash.digest(transcript);
        let client_secret: Vec<u8> = hash.derive_secret(
            master,
            "c ap traffic".as_bytes(),
            &transcript_hash,
        );
        let server_secret: Vec<u8> = hash.derive_secret(
            master,
            "s ap traffic".as_bytes(),
            &transcript_hash,
        );
        ApplicationKeys {
            client: RecordKey::new(cipher, &client_secret),
            server: RecordKey::new(cipher, &server_secret),
        }
    }
}

// ---- plain records ----

/// An unprotected record.
pub open spec fn plain_record(kind: u8, payload: Seq<u8>) -> Seq<u8> {
    seq![kind, 3u8, 1u8] + be_bytes(payload.len(), 2) + payload
}

/// Frames an unprotected record.
pub fn wrap_plain_record(typ: u8, payload: &[u8]) -> (res: Result<Vec<u8>, RecordError>)
    ensures
        match res {
            Ok(record) => payload@.len() <= 65535 && record@ == plain_record(typ, payload@),
            Err(e) => payload@.len() > 65535 && e == RecordError::PayloadTooLarge,
        },
{
    if payload.len() > 65535 {
        return Err(RecordError::PayloadTooLarge);
    }
    let mut out: Vec<u8> = vec![typ, 3u8, 1u8];
    put_u16(&mut out, payload.len() as u16);
    put_bytes(&mut out, payload);
    assert(out@ =~= plain_record(typ, payload@));
    Ok(out)
}

/// The length of the payload that follows the header of a record.
pub fn record_len(header: &[u8]) -> (res: Result<usize, RecordError>)
    requires
        header@.len() >= 5,
    ensures
        ({
            let n = be_value(header@.subrange(3, 5));
            match res {
                Ok(len) => len as nat == n && n <= MAX_RECORD,
                Err(e) => n > MAX_RECORD && (e matches RecordError::TooLarge(len) && len as nat
                    == n),
            }
        }),
{
    let len: usize = read_u16(header, 3) as usize;
    if len > MAX_RECORD {
        return Err(RecordError::TooLarge(len));
    }
    Ok(len)
}

} // verus!
