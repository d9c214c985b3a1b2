//! The TLS 1.3 key schedule (RFC 8446, section 7.1).

use crate::crypto::{
    hmac_sha256, hmac_sha256_of, hmac_sha384, hmac_sha384_of, sha256, sha256_of, sha384, sha384_of,
    Aead,
};
use crate::wire::{be_bytes, bytes_eq, put_bytes, put_u16};
use vstd::prelude::*;
use vstd::utf8::encode_utf8;

verus! {

pub const TLS_AES_128_GCM_SHA256: u16 = 0x1301;

pub const TLS_AES_256_GCM_SHA384: u16 = 0x1302;

pub const TLS_CHACHA20_POLY1305_SHA256: u16 = 0x1303;

/// The cipher suites of TLS 1.3 that are offered.
#[derive(Clone, Copy, Debug, PartialEq, Eq, Structural)]
pub enum CipherSuite {
    Aes128GcmSha256,
    Aes256GcmSha384,
    ChaCha20Poly1305Sha256,
}

/// The hash that a cipher suite goes with.
#[derive(Clone, Copy, Debug, PartialEq, Eq, Structural)]
pub enum HashKind {
    Sha256,
    Sha384,
}

/// A suite that was not offered.
#[derive(Clone, Copy, Debug, PartialEq, Eq, Structural)]
pub struct UnsupportedSuite(pub u16);

/// The number of a suite on the wire.
pub open spec fn suite_number(suite: CipherSuite) -> u16 {
    match suite {
        CipherSuite::Aes128GcmSha256 => TLS_AES_128_GCM_SHA256,
        CipherSuite::Aes256GcmSha384 => TLS_AES_256_GCM_SHA384,
        CipherSuite::ChaCha20Poly1305Sha256 => TLS_CHACHA20_POLY1305_SHA256,
    }
}

/// The hash of a suite.
pub open spec fn suite_hash(suite: CipherSuite) -> HashKind {
    match suite {
        CipherSuite::Aes256GcmSha384 => HashKind::Sha384,
        _ => HashKind::Sha256,
    }
}

/// The cipher of a suite.
pub open spec fn suite_aead(suite: CipherSuite) -> Aead {
    match suite {
        CipherSuite::Aes128GcmSha256 => Aead::Aes128Gcm,
        CipherSuite::Aes256GcmSha384 => Aead::Aes256Gcm,
        CipherSuite::ChaCha20Poly1305Sha256 => Aead::ChaCha20Poly1305,
    }
}

/// The key length of a suite.
pub open spec fn suite_key_len(suite: CipherSuite) -> nat {
    match suite {
        CipherSuite::Aes128GcmSha256 => 16,
        _ => 32,
    }
}

/// The length of a hash.
pub open spec fn hash_len(hash: HashKind) -> nat {
    match hash {
        HashKind::Sha256 => 32,
        HashKind::Sha384 => 48,
    }
}

/// The digest of `data`.
pub open spec fn digest_of(hash: HashKind, data: Seq<u8>) -> Seq<u8> {
    match hash {
        HashKind::Sha256 => sha256_of(data),
        HashKind::Sha384 => sha384_of(data),
    }
}

/// The HMAC of `data`.
pub open spec fn hmac_of(hash: HashKind, key: Seq<u8>, data: Seq<u8>) -> Seq<u8> {
    match hash {
        HashKind::Sha256 => hmac_sha256_of(key, data),
        HashKind::Sha384 => hmac_sha384_of(key, data),
    }
}

/// The `i`-th block of HKDF-Expand (RFC 5869), counted from one; the zeroth is empty.
pub open spec fn expand_block(hash: HashKind, prk: Seq<u8>, info: Seq<u8>, i: nat) -> Seq<u8>
    decreases i,
{
    if i == 0 {
        Seq::empty()
    } else {
        hmac_of(hash, prk, expand_block(hash, prk, info, (i - 1) as nat) + info + seq![i as u8])
    }
}

/// The first `n` blocks.
pub open spec fn expand_blocks(hash: HashKind, prk: Seq<u8>, info: Seq<u8>, n: nat) -> Seq<u8>
    decreases n,
{
    if n == 0 {
        Seq::empty()
    } else {
        expand_blocks(hash, prk, info, (n - 1) as nat) + expand_block(hash, prk, info, n)
    }
}

/// HKDF-Expand.
pub open spec fn expanded(hash: HashKind, prk: Seq<u8>, info: Seq<u8>, len: nat) -> Seq<u8> {
    expand_blocks(
        hash,
        prk,
        info,
        ((len + hash_len(hash) - 1) / hash_len(hash) as int) as nat,
    ).take(len as int)
}

/// The label structure of HKDF-Expand-Label.
pub open spec fn label_info(label: Seq<u8>, context: Seq<u8>, len: nat) -> Seq<u8> {
    be_bytes(len, 2) + seq![((6 + label.len()) % 256) as u8] + seq![0x74u8, 0x6c, 0x73, 0x31, 0x33, 0x20]
        + label + seq![(context.len() % 256) as u8] + context
}

/// HKDF-Expand-Label.
pub open spec fn expanded_label(
    hash: HashKind,
    secret: Seq<u8>,
    label: Seq<u8>,
    context: Seq<u8>,
    len: nat,
) -> Seq<u8> {
    expanded(hash, secret, label_info(label, context, len), len)
}

/// Derive-Secret, from the hash of the transcript.
pub open spec fn derived_secret(
    hash: HashKind,
    secret: Seq<u8>,
    label: Seq<u8>,
    transcript_hash: Seq<u8>,
) -> Seq<u8> {
    expanded_label(hash, secret, label, transcript_hash, hash_len(hash))
}

/// The contents of a Finished message.
pub open spec fn finished_data(hash: HashKind, secret: Seq<u8>, transcript: Seq<u8>) -> Seq<u8> {
    hmac_of(
        hash,
        expanded_label(hash, secret, encode_utf8("finished"@), Seq::empty(), hash_len(hash)),
        digest_of(hash, transcript),
    )
}

/// A string of zero bytes.
pub open spec fn zeros(n: nat) -> Seq<u8> {
    Seq::new(n, |i: int| 0u8)
}

/// The secret that the handshake keys come from.
pub open spec fn handshake_secret(hash: HashKind, shared: Seq<u8>) -> Seq<u8> {
    let zero = zeros(hash_len(hash));
    let early = hmac_of(hash, zero, zero);
    let empty = digest_of(hash, Seq::empty());
    hmac_of(hash, derived_secret(hash, early, encode_utf8("derived"@), empty), shared)
}

/// The client's secret during the handshake.
pub open spec fn client_hs_secret(hash: HashKind, shared: Seq<u8>, transcript: Seq<u8>) -> Seq<u8> {
    derived_secret(
        hash,
        handshake_secret(hash, shared),
        encode_utf8("c hs traffic"@),
        digest_of(hash, transcript),
    )
}

/// The server's secret during the handshake.
pub open spec fn server_hs_secret(hash: HashKind, shared: Seq<u8>, transcript: Seq<u8>) -> Seq<u8> {
    derived_secret(
        hash,
        handshake_secret(hash, shared),
        encode_utf8("s hs traffic"@),
        digest_of(hash, transcript),
    )
}

/// The secret that the application keys come from.
pub open spec fn master_secret(hash: HashKind, shared: Seq<u8>) -> Seq<u8> {
    hmac_of(
        hash,
        derived_secret(
            hash,
            handshake_secret(hash, shared),
            encode_utf8("derived"@),
            digest_of(hash, Seq::empty()),
        ),
        zeros(hash_len(hash)),
    )
}

/// The client's application secret.
pub open spec fn client_ap_secret(hash: HashKind, master: Seq<u8>, transcript: Seq<u8>) -> Seq<u8> {
    derived_secret(hash, master, encode_utf8("c ap traffic"@), digest_of(hash, transcript))
}

/// The server's application secret.
pub open spec fn server_ap_secret(hash: HashKind, master: Seq<u8>, transcript: Seq<u8>) -> Seq<u8> {
    derived_secret(hash, master, encode_utf8("s ap traffic"@), digest_of(hash, transcript))
}

impl CipherSuite {
    /// The suite of that number.
    pub fn try_from(value: u16) -> (res: Result<CipherSuite, UnsupportedSuite>)
        ensures
            match res {
                Ok(s) => suite_number(s) == value,
                Err(e) => e.0 == value && forall|s: CipherSuite| #[trigger]
                    suite_number(s) != value,
            },
    {
        if value == TLS_AES_128_GCM_SHA256 {
            Ok(CipherSuite::Aes128GcmSha256)
        } else if value == TLS_AES_256_GCM_SHA384 {
            Ok(CipherSuite::Aes256GcmSha384)
        } else if value == TLS_CHACHA20_POLY1305_SHA256 {
            Ok(CipherSuite::ChaCha20Poly1305Sha256)
        } else {
            Err(UnsupportedSuite(value))
        }
    }

    pub fn key_len(self) -> (n: usize)
        ensures
            n as nat == suite_key_len(self),
    {
        match self {
            CipherSuite::Aes128GcmSha256 => 16,
            CipherSuite::Aes256GcmSha384 | CipherSuite::ChaCha20Poly1305Sha256 => 32,
        }
    }

    pub fn hash_kind(self) -> (hash: HashKind)
        ensures
            hash == suite_hash(self),
    {
        match self {
            CipherSuite::Aes128GcmSha256 | CipherSuite::ChaCha20Poly1305Sha256 => HashKind::Sha256,
            CipherSuite::Aes256GcmSha384 => HashKind::Sha384,
        }
    }

    pub fn aead(self) -> (cipher: Aead)
        ensures
            cipher == suite_aead(self),
    {
        match self {
            CipherSuite::Aes128GcmSha256 => Aead::Aes128Gcm,
            CipherSuite::Aes256GcmSha384 => Aead::Aes256Gcm,
            CipherSuite::ChaCha20Poly1305Sha256 => Aead::ChaCha20Poly1305,
        }
    }
}

proof fn whole_blocks(len: nat, size: nat, n: nat)
    requires
        size > 0,
        n * size >= len,
        n > 0 ==> (n - 1) * size < len,
    ensures
        (len + size - 1) / size as int == n,
{
    if n == 0 {
        assert(0 * size == 0) by (nonlinear_arith);
        assert(len == 0);
        vstd::arithmetic::div_mod::lemma_basic_div(size - 1, size as int);
    } else {
        assert((n - 1) * size == n * size - size) by (nonlinear_arith);
        vstd::arithmetic::div_mod::lemma_fundamental_div_mod_converse(
            len + size - 1,
            size as int,
            n as int,
            len + size - 1 - n * size,
        );
        assert(size * n == n * size) by (nonlinear_arith);
    }
}

impl HashKind {
    pub fn output_len(self) -> (n: usize)
        ensures
            n as nat == hash_len(self),
    {
        match self {
            HashKind::Sha256 => 32,
            HashKind::Sha384 => 48,
        }
    }

    pub fn digest(self, data: &[u8]) -> (out: Vec<u8>)
        ensures
            out@ == digest_of(self, data@),
            out@.len() == hash_len(self),
    {
        match self {
            HashKind::Sha256 => sha256(data),
            HashKind::Sha384 => sha384(data),
        }
    }

    fn hmac(self, key: &[u8], data: &[u8]) -> (out: Vec<u8>)
        ensures
            out@ == hmac_of(self, key@, data@),
            out@.len() == hash_len(self),
    {
        match self {
            HashKind::Sha256 => hmac_sha256(key, data),
            HashKind::Sha384 => hmac_sha384(key, data),
        }
    }

    /// HKDF-Extract.
    pub fn hkdf_extract(self, salt: &[u8], ikm: &[u8]) -> (out: Vec<u8>)
        ensures
            out@ == hmac_of(self, salt@, ikm@),
            out@.len() == hash_len(self),
    {
        self.hmac(salt, ikm)
    }

    /// HKDF-Expand, up to the length at which its block counter would run out.
    pub fn hkdf_expand(self, prk: &[u8], info: &[u8], len: usize) -> (out: Vec<u8>)
        requires
            len <= 254 * hash_len(self),
        ensures
            out@ == expanded(self, prk@, info@, len as nat),
            out@.len() == len,
    {
        let mut okm: Vec<u8> = Vec::new();
        let mut previous: Vec<u8> = Vec::new();
        let mut counter: u8 = 1;
        let ghost size = hash_len(self);
        assert(0 * size == 0) by (nonlinear_arith);
        while okm.len() < len
            invariant
                size == hash_len(self),
                len <= 254 * size,
                1 <= counter,
                okm@ == expand_blocks(self, prk@, info@, (counter - 1) as nat),
                okm@.len() == (counter - 1) * size,
                previous@ == expand_block(self, prk@, info@, (counter - 1) as nat),
                counter > 1 ==> (counter - 2) * size < len,
                counter <= 255,
            decreases 255 - counter,
        {
            let ghost before = previous@;
            let mut msg: Vec<u8> = previous;
            put_bytes(&mut msg, info);
            msg.push(counter);
            assert(msg@ =~= before + info@ + seq![counter]);
            previous = self.hmac(prk, &msg);
            put_bytes(&mut okm, &previous);
            proof {
                assert(counter * size == (counter - 1) * size + size) by (nonlinear_arith);
                assert(counter <= 254) by (nonlinear_arith)
                    requires
                        (counter - 1) * size < len,
                        len <= 254 * size,
                        size > 0,
                ;
            }
            counter = counter + 1;
        }
        proof {
            whole_blocks(len as nat, size, (counter - 1) as nat);
        }
        okm.truncate(len);
        assert(okm@ =~= expanded(self, prk@, info@, len as nat));
        okm
    }

    /// HKDF-Expand-Label.
    pub fn hkdf_expand_label(self, secret: &[u8], label: &[u8], context: &[u8], len: usize) -> (out:
        Vec<u8>)
        requires
            len <= 254 * hash_len(self),
        ensures
            out@ == expanded_label(self, secret@, label@, context@, len as nat),
            out@.len() == len,
    {
        let mut info: Vec<u8> = Vec::new();
        put_u16(&mut info, len as u16);
        info.push(((6 + label.len() % 256) % 256) as u8);
        let prefix: [u8; 6] = [0x74, 0x6c, 0x73, 0x31, 0x33, 0x20];
        put_bytes(&mut info, &prefix);
        put_bytes(&mut info, label);
        info.push((context.len() % 256) as u8);
        put_bytes(&mut info, context);
        assert(prefix@ =~= seq![0x74u8, 0x6c, 0x73, 0x31, 0x33, 0x20]);
        assert(info@ =~= label_info(label@, context@, len as nat));
        self.hkdf_expand(secret, &info, len)
    }

    /// Derive-Secret.
    pub fn derive_secret(self, secret: &[u8], label: &[u8], transcript_hash: &[u8]) -> (out: Vec<u8>)
        ensures
            out@ == derived_secret(self, secret@, label@, transcript_hash@),
            out@.len() == hash_len(self),
    {
        self.hkdf_expand_label(secret, label, transcript_hash, self.output_len())
    }

    /// What a Finished message holds.
    pub fn finished_verify_data(self, secret: &[u8], transcript: &[u8]) -> (out: Vec<u8>)
        ensures
            out@ == finished_data(self, secret@, transcript@),
            out@.len() == hash_len(self),
    {
        let empty: Vec<u8> = Vec::new();
        let key: Vec<u8> = self.hkdf_expand_label(
            secret,
            "finished".as_bytes(),
            &empty,
            self.output_len(),
        );
        let hash: Vec<u8> = self.digest(transcript);
        assert(empty@ =~= Seq::empty());
        self.hmac(&key, &hash)
    }
}

/// Whether the other side's Finished message is right.
pub fn verify_finished(hash: HashKind, secret: &[u8], transcript: &[u8], received: &[u8]) -> (ok:
    bool)
    ensures
        ok == (received@ == finished_data(hash, secret@, transcript@)),
{
    let expected: Vec<u8> = hash.finished_verify_data(secret, transcript);
    bytes_eq(&expected, received)
}

} // verus!
