//! Hashes, message authentication, authenticated encryption and key agreement.

use aes_gcm::aead::{AeadInPlace, KeyInit};
use aes_gcm::{Aes128Gcm, Aes256Gcm};
use chacha20poly1305::ChaCha20Poly1305;
use hmac::{Hmac, Mac};
use sha2::{Digest, Sha256, Sha384, Sha512};
use vstd::prelude::*;
use x25519_dalek::{PublicKey, StaticSecret};

verus! {

// ---- hashes ----

/// The SHA-256 digest, as the `sha2` crate computes it.
pub uninterp spec fn sha256_of(data: Seq<u8>) -> Seq<u8>;

/// The SHA-384 digest, as the `sha2` crate computes it.
pub uninterp spec fn sha384_of(data: Seq<u8>) -> Seq<u8>;

/// HMAC with SHA-256, as the `hmac` crate computes it.
pub uninterp spec fn hmac_sha256_of(key: Seq<u8>, data: Seq<u8>) -> Seq<u8>;

/// HMAC with SHA-384, as the `hmac` crate computes it.
pub uninterp spec fn hmac_sha384_of(key: Seq<u8>, data: Seq<u8>) -> Seq<u8>;

/// HMAC with SHA-512, as the `hmac` crate computes it.
pub uninterp spec fn hmac_sha512_of(key: Seq<u8>, data: Seq<u8>) -> Seq<u8>;

/// `Sha256::digest` of the `sha2` crate: 32 bytes that depend on the data alone.
#[verifier::external_body]
pub(crate) fn sha256(data: &[u8]) -> (out: Vec<u8>)
    ensures
        out@ == sha256_of(data@),
        out@.len() == 32,
{
    Sha256::digest(data).to_vec()
}

/// `Sha384::digest` of the `sha2` crate: 48 bytes that depend on the data alone.
#[verifier::external_body]
pub(crate) fn sha384(data: &[u8]) -> (out: Vec<u8>)
    ensures
        out@ == sha384_of(data@),
        out@.len() == 48,
{
    Sha384::digest(data).to_vec()
}

/// `Hmac<Sha256>` of the `hmac` crate on one message, with a key of any length: 32 bytes
/// that depend on key and data alone.
#[verifier::external_body]
pub(crate) fn hmac_sha256(key: &[u8], data: &[u8]) -> (out: Vec<u8>)
    ensures
        out@ == hmac_sha256_of(key@, data@),
        out@.len() == 32,
{
    let mut h = <Hmac<Sha256> as Mac>::new_from_slice(key).expect("any key length");
    h.update(data);
    h.finalize().into_bytes().to_vec()
}

/// `Hmac<Sha384>` of the `hmac` crate on one message, with a key of any length: 48 bytes
/// that depend on key and data alone.
#[verifier::external_body]
pub(crate) fn hmac_sha384(key: &[u8], data: &[u8]) -> (out: Vec<u8>)
    ensures
        out@ == hmac_sha384_of(key@, data@),
        out@.len() == 48,
{
    let mut h = <Hmac<Sha384> as Mac>::new_from_slice(key).expect("any key length");
    h.update(data);
    h.finalize().into_bytes().to_vec()
}

/// `Hmac<Sha512>` of the `hmac` crate on one message, with a key of any length: 64 bytes
/// that depend on key and data alone.
#[verifier::external_body]
pub(crate) fn hmac_sha512(key: &[u8], data: &[u8]) -> (out: Vec<u8>)
    ensures
        out@ == hmac_sha512_of(key@, data@),
        out@.len() == 64,
{
    let mut h = <Hmac<Sha512> as Mac>::new_from_slice(key).expect("any key length");
    h.update(data);
    h.finalize().into_bytes().to_vec()
}

// ---- authenticated encryption ----

/// The ciphers that encrypt and authenticate.
#[derive(Clone, Copy, Debug, PartialEq, Eq, Structural)]
pub enum Aead {
    Aes128Gcm,
    Aes256Gcm,
    ChaCha20Poly1305,
}

/// The length of the tag that follows the ciphertext.
pub const TAG_LEN: usize = 16;

/// The length of a nonce.
pub const NONCE_LEN: usize = 12;

/// Ciphertext and tag of AES-128-GCM, as the `aes-gcm` crate computes them.
pub uninterp spec fn aes128_gcm_sealed(
    key: Seq<u8>,
    nonce: Seq<u8>,
    aad: Seq<u8>,
    plain: Seq<u8>,
) -> Seq<u8>;

/// Ciphertext and tag of AES-256-GCM, as the `aes-gcm` crate computes them.
pub uninterp spec fn aes256_gcm_sealed(
    key: Seq<u8>,
    nonce: Seq<u8>,
    aad: Seq<u8>,
    plain: Seq<u8>,
) -> Seq<u8>;

/// Ciphertext and tag of ChaCha20-Poly1305, as the `chacha20poly1305` crate computes them.
pub uninterp spec fn chacha_sealed(
    key: Seq<u8>,
    nonce: Seq<u8>,
    aad: Seq<u8>,
    plain: Seq<u8>,
) -> Seq<u8>;

/// The longest message and the longest associated data that AES-GCM takes.
pub open spec fn gcm_limit() -> nat {
    0x10_0000_0000
}

/// The longest message that ChaCha20 has blocks for: all but the first and the last of 2^32.
pub open spec fn chacha_limit() -> nat {
    0x3f_ffff_ff80
}

/// Whether AES-GCM takes a message and associated data of these lengths.
pub open spec fn gcm_fits(plain: nat, aad: nat) -> bool {
    plain <= gcm_limit() && aad <= gcm_limit()
}

/// Whether AES-GCM tries to open a text of this length, tag included. It accepts a little
/// more than it ever makes.
pub open spec fn gcm_opens(sealed: nat, aad: nat) -> bool {
    TAG_LEN <= sealed <= gcm_limit() + 32 && aad <= gcm_limit()
}

/// `Aes128Gcm::encrypt_in_place_detached` of the `aes-gcm` crate, with the tag put behind the
/// ciphertext. It fails exactly on messages or associated data beyond its limits. Under one key and
/// nonce no two messages of a length have the same encryption.
#[verifier::external_body]
fn aes128_gcm_seal(key: &[u8], nonce: &[u8], aad: &[u8], plain: &[u8]) -> (out: Option<Vec<u8>>)
    requires
        key@.len() == 16,
        nonce@.len() == NONCE_LEN,
    ensures
        out is Some <==> gcm_fits(plain@.len(), aad@.len()),
        out matches Some(c) ==> c@ == aes128_gcm_sealed(key@, nonce@, aad@, plain@) && c@.len()
            == plain@.len() + TAG_LEN,
        out matches Some(c) ==> forall|p: Seq<u8>|
            p.len() == plain@.len() && #[trigger] aes128_gcm_sealed(key@, nonce@, aad@, p) == c@ ==> p
                == plain@,
{
    let cipher = Aes128Gcm::new_from_slice(key).ok()?;
    let mut out = plain.to_vec();
    let tag = cipher.encrypt_in_place_detached(nonce.into(), aad, &mut out).ok()?;
    out.extend_from_slice(&tag);
    Some(out)
}

/// Whether `out` is the message of the right length that encrypts to `text`, if any does.
pub open spec fn aes128_gcm_inverse(
    key: Seq<u8>,
    nonce: Seq<u8>,
    aad: Seq<u8>,
    text: Seq<u8>,
    out: Option<Vec<u8>>,
) -> bool {
    forall|p: Seq<u8>|
        p.len() + TAG_LEN == text.len() && #[trigger] aes128_gcm_sealed(key, nonce, aad, p) == text ==> (
        out matches Some(q) && q@ == p)
}

/// `Aes128Gcm::decrypt_in_place_detached` of the `aes-gcm` crate on a text with its tag
/// behind it: the one message whose encryption is that text, if there is one.
#[verifier::external_body]
fn aes128_gcm_open(key: &[u8], nonce: &[u8], aad: &[u8], text: &[u8]) -> (out: Option<Vec<u8>>)
    requires
        key@.len() == 16,
        nonce@.len() == NONCE_LEN,
        gcm_opens(text@.len(), aad@.len()),
    ensures
        out matches Some(p) ==> aes128_gcm_sealed(key@, nonce@, aad@, p@) == text@ && p@.len()
            + TAG_LEN == text@.len(),
        aes128_gcm_inverse(key@, nonce@, aad@, text@, out),
{
    let cipher = Aes128Gcm::new_from_slice(key).ok()?;
    let (body, tag) = text.split_at(text.len() - 16);
    let mut out = body.to_vec();
    cipher.decrypt_in_place_detached(nonce.into(), aad, &mut out, tag.into()).ok()?;
    Some(out)
}

/// `Aes256Gcm::encrypt_in_place_detached` of the `aes-gcm` crate, with the tag put behind the
/// ciphertext. It fails exactly on messages or associated data beyond its limits. Under one key and
/// nonce no two messages of a length have the same encryption.
#[verifier::external_body]
fn aes256_gcm_seal(key: &[u8], nonce: &[u8], aad: &[u8], plain: &[u8]) -> (out: Option<Vec<u8>>)
    requires
        key@.len() == 32,
        nonce@.len() == NONCE_LEN,
    ensures
        out is Some <==> gcm_fits(plain@.len(), aad@.len()),
        out matches Some(c) ==> c@ == aes256_gcm_sealed(key@, nonce@, aad@, plain@) && c@.len()
            == plain@.len() + TAG_LEN,
        out matches Some(c) ==> forall|p: Seq<u8>|
            p.len() == plain@.len() && #[trigger] aes256_gcm_sealed(key@, nonce@, aad@, p) == c@ ==> p
                == plain@,
{
    let cipher = Aes256Gcm::new_from_slice(key).ok()?;
    let mut out = plain.to_vec();
    let tag = cipher.encrypt_in_place_detached(nonce.into(), aad, &mut out).ok()?;
    out.extend_from_slice(&tag);
    Some(out)
}

/// Whether `out` is the message of the right length that encrypts to `text`, if any does.
pub open spec fn aes256_gcm_inverse(
    key: Seq<u8>,
    nonce: Seq<u8>,
    aad: Seq<u8>,
    text: Seq<u8>,
    out: Option<Vec<u8>>,
) -> bool {
    forall|p: Seq<u8>|
        p.len() + TAG_LEN == text.len() && #[trigger] aes256_gcm_sealed(key, nonce, aad, p) == text ==> (
        out matches Some(q) && q@ == p)
}

/// `Aes256Gcm::decrypt_in_place_detached` of the `aes-gcm` crate on a text with its tag
/// behind it: the one message whose encryption is that text, if there is one.
#[verifier::external_body]
fn aes256_gcm_open(key: &[u8], nonce: &[u8], aad: &[u8], text: &[u8]) -> (out: Option<Vec<u8>>)
    requires
        key@.len() == 32,
        nonce@.len() == NONCE_LEN,
        gcm_opens(text@.len(), aad@.len()),
    ensures
        out matches Some(p) ==> aes256_gcm_sealed(key@, nonce@, aad@, p@) == text@ && p@.len()
            + TAG_LEN == text@.len(),
        aes256_gcm_inverse(key@, nonce@, aad@, text@, out),
{
    let cipher = Aes256Gcm::new_from_slice(key).ok()?;
    let (body, tag) = text.split_at(text.len() - 16);
    let mut out = body.to_vec();
    cipher.decrypt_in_place_detached(nonce.into(), aad, &mut out, tag.into()).ok()?;
    Some(out)
}

/// `ChaCha20Poly1305::encrypt_in_place_detached` of the `chacha20poly1305` crate, with the tag
/// put behind the ciphertext. It takes every message up to its limit; on some beyond it, it would
/// panic. Under one key and nonce no two messages of a length have the same encryption.
#[verifier::external_body]
fn chacha_seal(key: &[u8], nonce: &[u8], aad: &[u8], plain: &[u8]) -> (out: Option<Vec<u8>>)
    requires
        key@.len() == 32,
        nonce@.len() == NONCE_LEN,
        plain@.len() <= chacha_limit(),
    ensures
        out is Some,
        out matches Some(c) ==> c@ == chacha_sealed(key@, nonce@, aad@, plain@) && c@.len()
            == plain@.len() + TAG_LEN,
        out matches Some(c) ==> forall|p: Seq<u8>|
            p.len() == plain@.len() && #[trigger] chacha_sealed(key@, nonce@, aad@, p) == c@ ==> p
                == plain@,
{
    let cipher = ChaCha20Poly1305::new_from_slice(key).ok()?;
    let mut out = plain.to_vec();
    let tag = cipher.encrypt_in_place_detached(nonce.into(), aad, &mut out).ok()?;
    out.extend_from_slice(&tag);
    Some(out)
}

/// Whether `out` is the message of the right length that encrypts to `text`, if any does.
pub open spec fn chacha_inverse(
    key: Seq<u8>,
    nonce: Seq<u8>,
    aad: Seq<u8>,
    text: Seq<u8>,
    out: Option<Vec<u8>>,
) -> bool {
    forall|p: Seq<u8>|
        p.len() + TAG_LEN == text.len() && #[trigger] chacha_sealed(key, nonce, aad, p) == text ==> (
        out matches Some(q) && q@ == p)
}

/// `ChaCha20Poly1305::decrypt_in_place_detached` of the `chacha20poly1305` crate on a text
/// with its tag behind it: the one message whose encryption is that text, if there is one. It would
/// panic on some texts of messages beyond the limit.
#[verifier::external_body]
fn chacha_open(key: &[u8], nonce: &[u8], aad: &[u8], text: &[u8]) -> (out: Option<Vec<u8>>)
    requires
        key@.len() == 32,
        nonce@.len() == NONCE_LEN,
        TAG_LEN <= text@.len() <= chacha_limit() + TAG_LEN,
    ensures
        out matches Some(p) ==> chacha_sealed(key@, nonce@, aad@, p@) == text@ && p@.len()
            + TAG_LEN == text@.len(),
        chacha_inverse(key@, nonce@, aad@, text@, out),
{
    let cipher = ChaCha20Poly1305::new_from_slice(key).ok()?;
    let (body, tag) = text.split_at(text.len() - 16);
    let mut out = body.to_vec();
    cipher.decrypt_in_place_detached(nonce.into(), aad, &mut out, tag.into()).ok()?;
    Some(out)
}

/// Ciphertext and tag of a message.
pub open spec fn sealed(
    cipher: Aead,
    key: Seq<u8>,
    nonce: Seq<u8>,
    aad: Seq<u8>,
    plain: Seq<u8>,
) -> Seq<u8> {
    match cipher {
        Aead::Aes128Gcm => aes128_gcm_sealed(key, nonce, aad, plain),
        Aead::Aes256Gcm => aes256_gcm_sealed(key, nonce, aad, plain),
        Aead::ChaCha20Poly1305 => chacha_sealed(key, nonce, aad, plain),
    }
}

/// The length of a key.
pub open spec fn aead_key_len(cipher: Aead) -> nat {
    match cipher {
        Aead::Aes128Gcm => 16,
        _ => 32,
    }
}

/// Whether the cipher takes a message and associated data of these lengths.
pub open spec fn can_seal(cipher: Aead, plain: nat, aad: nat) -> bool {
    match cipher {
        Aead::ChaCha20Poly1305 => plain <= chacha_limit(),
        _ => gcm_fits(plain, aad),
    }
}

/// Whether the cipher tries to open a text of this length.
pub open spec fn can_open(cipher: Aead, text: nat, aad: nat) -> bool {
    match cipher {
        Aead::ChaCha20Poly1305 => TAG_LEN <= text <= chacha_limit() + TAG_LEN,
        _ => gcm_opens(text, aad),
    }
}

/// The message whose encryption is `text`, if the cipher opens it.
pub open spec fn opened(
    cipher: Aead,
    key: Seq<u8>,
    nonce: Seq<u8>,
    aad: Seq<u8>,
    text: Seq<u8>,
) -> Option<Seq<u8>> {
    if can_open(cipher, text.len(), aad.len()) && exists|p: Seq<u8>|
        p.len() + TAG_LEN == text.len() && #[trigger] sealed(cipher, key, nonce, aad, p) == text {
        Some(
            choose|p: Seq<u8>|
                p.len() + TAG_LEN == text.len() && #[trigger] sealed(cipher, key, nonce, aad, p)
                    == text,
        )
    } else {
        None
    }
}

/// Encrypts and authenticates. Fails exactly on lengths beyond the limits of the cipher. What it
/// makes opens to what went in.
pub fn aead_seal(cipher: Aead, key: &[u8], nonce: &[u8], aad: &[u8], plain: &[u8]) -> (out: Option<
    Vec<u8>,
>)
    requires
        key@.len() == aead_key_len(cipher),
        nonce@.len() == NONCE_LEN,
    ensures
        out is Some <==> can_seal(cipher, plain@.len(), aad@.len()),
        out matches Some(c) ==> c@ == sealed(cipher, key@, nonce@, aad@, plain@) && c@.len()
            == plain@.len() + TAG_LEN && opened(cipher, key@, nonce@, aad@, c@) == Some(plain@),
{
    let out: Option<Vec<u8>> = match cipher {
        Aead::Aes128Gcm => aes128_gcm_seal(key, nonce, aad, plain),
        Aead::Aes256Gcm => aes256_gcm_seal(key, nonce, aad, plain),
        Aead::ChaCha20Poly1305 => {
            if plain.len() as u64 > 0x3f_ffff_ff80 {
                None
            } else {
                chacha_seal(key, nonce, aad, plain)
            }
        },
    };
    proof {
        if out is Some {
            let c = out->Some_0@;
            assert(sealed(cipher, key@, nonce@, aad@, plain@) == c);
            assert forall|p: Seq<u8>|
                p.len() + TAG_LEN == c.len() && #[trigger] sealed(cipher, key@, nonce@, aad@, p)
                    == c implies p == plain@ by {
                assert(cipher is Aes128Gcm ==> aes128_gcm_sealed(key@, nonce@, aad@, p) == c);
                assert(cipher is Aes256Gcm ==> aes256_gcm_sealed(key@, nonce@, aad@, p) == c);
                assert(cipher is ChaCha20Poly1305 ==> chacha_sealed(key@, nonce@, aad@, p) == c);
            }
        }
    }
    out
}

/// Opens what was sealed: a text that some message encrypts to gives that message, and any
/// other text is refused.
pub fn aead_open(cipher: Aead, key: &[u8], nonce: &[u8], aad: &[u8], text: &[u8]) -> (out: Option<
    Vec<u8>,
>)
    requires
        key@.len() == aead_key_len(cipher),
        nonce@.len() == NONCE_LEN,
    ensures
        match (out, opened(cipher, key@, nonce@, aad@, text@)) {
            (Some(p), Some(q)) => p@ == q && q.len() + TAG_LEN == text@.len(),
            (None, None) => true,
            _ => false,
        },
        forall|p: Seq<u8>|
            can_open(cipher, text@.len(), aad@.len()) && p.len() + TAG_LEN == text@.len()
                && #[trigger] sealed(
                cipher,
                key@,
                nonce@,
                aad@,
                p,
            ) == text@ ==> (out matches Some(q) && q@ == p),
{
    if text.len() < TAG_LEN {
        return None;
    }
    let out: Option<Vec<u8>> = match cipher {
        Aead::Aes128Gcm => {
            if text.len() as u64 > 0x10_0000_0020 || aad.len() as u64 > 0x10_0000_0000 {
                None
            } else {
                aes128_gcm_open(key, nonce, aad, text)
            }
        },
        Aead::Aes256Gcm => {
            if text.len() as u64 > 0x10_0000_0020 || aad.len() as u64 > 0x10_0000_0000 {
                None
            } else {
                aes256_gcm_open(key, nonce, aad, text)
            }
        },
        Aead::ChaCha20Poly1305 => {
            if text.len() as u64 - 16 > 0x3f_ffff_ff80 {
                None
            } else {
                chacha_open(key, nonce, aad, text)
            }
        },
    };
    assert(out matches Some(p) ==> sealed(cipher, key@, nonce@, aad@, p@) == text@);
    assert forall|p: Seq<u8>|
        can_open(cipher, text@.len(), aad@.len()) && p.len() + TAG_LEN == text@.len()
            && #[trigger] sealed(
            cipher,
            key@,
            nonce@,
            aad@,
            p,
        ) == text@ implies (out matches Some(q) && q@ == p) by {
        assert(cipher is Aes128Gcm ==> aes128_gcm_sealed(key@, nonce@, aad@, p) == text@);
        assert(cipher is Aes256Gcm ==> aes256_gcm_sealed(key@, nonce@, aad@, p) == text@);
        assert(cipher is ChaCha20Poly1305 ==> chacha_sealed(key@, nonce@, aad@, p) == text@);
    }
    out
}

// ---- key agreement ----

/// The X25519 public key of a secret, as the `x25519-dalek` crate computes it.
pub uninterp spec fn x25519_public_of(secret: Seq<u8>) -> Seq<u8>;

/// The X25519 shared secret, as the `x25519-dalek` crate computes it.
pub uninterp spec fn x25519_shared_of(secret: Seq<u8>, public: Seq<u8>) -> Seq<u8>;

/// `PublicKey::from(&StaticSecret)` of the `x25519-dalek` crate: 32 bytes that depend on the
/// secret alone.
#[verifier::external_body]
pub(crate) fn x25519_public(secret: &[u8]) -> (public: Vec<u8>)
    requires
        secret@.len() == 32,
    ensures
        public@ == x25519_public_of(secret@),
        public@.len() == 32,
{
    let secret: [u8; 32] = secret.try_into().expect("32 bytes");
    PublicKey::from(&StaticSecret::from(secret)).to_bytes().to_vec()
}

/// `StaticSecret::diffie_hellman` of the `x25519-dalek` crate: 32 bytes that depend on the
/// secret and the public key alone.
#[verifier::external_body]
pub(crate) fn x25519_shared(secret: &[u8], public: &[u8]) -> (shared: Vec<u8>)
    requires
        secret@.len() == 32,
        public@.len() == 32,
    ensures
        shared@ == x25519_shared_of(secret@, public@),
        shared@.len() == 32,
{
    let secret: [u8; 32] = secret.try_into().expect("32 bytes");
    let public: [u8; 32] = public.try_into().expect("32 bytes");
    StaticSecret::from(secret).diffie_hellman(&PublicKey::from(public)).to_bytes().to_vec()
}

} // verus!
