//! Encrypted Client Hello: reading configuration lists, from PEM and from DNS answers.

use crate::config::OutboundECHOptions;
use crate::encoding::{base64_decode, base64_standard};
use crate::text::{
    chars_of, find_text, first_at, join_text, joined_text, text_in, text_of, texts, utf8_text,
};
use crate::tls::parse::{bytes_at, number_at, take, take_u16, take_u8};
use crate::wire::{be_value, copy_range, read_u16};
use vstd::prelude::*;
use vstd::utf8::{decode_utf8, valid_utf8};

verus! {

/// The version of a configuration that is understood.
pub const ECH_CONFIG_VERSION_DRAFT: u16 = 0xfe0d;

/// The TLS extension that carries the encrypted hello.
pub const TLS_EXTENSION_ENCRYPTED_CLIENT_HELLO: u16 = 0xfe0d;

pub const HPKE_KEM_X25519_HKDF_SHA256: u16 = 0x0020;

pub const HPKE_KDF_HKDF_SHA256: u16 = 0x0001;

pub const HPKE_AEAD_AES_128_GCM: u16 = 0x0001;

pub const HPKE_AEAD_AES_256_GCM: u16 = 0x0002;

pub const HPKE_AEAD_CHACHA20_POLY1305: u16 = 0x0003;

/// The key of the parameter in a DNS record that holds a configuration list.
pub const SVCB_KEY_ECH: u16 = 5;

/// A pair of key derivation and cipher.
#[derive(Clone, Copy, Debug, PartialEq, Eq, Structural)]
pub struct EchCipherSuite {
    pub kdf_id: u16,
    pub aead_id: u16,
}

/// One configuration.
#[derive(Clone, Debug)]
pub struct EchConfig {
    pub version: u16,
    pub config_id: u8,
    pub kem_id: u16,
    pub public_key: Vec<u8>,
    pub cipher_suites: Vec<EchCipherSuite>,
    pub maximum_name_length: u8,
    /// The name that stays visible.
    pub public_name: String,
    /// The configuration as it came, with version and length.
    pub raw: Vec<u8>,
}

/// What is wrong with a configuration list.
#[derive(Clone, Copy, Debug, PartialEq, Eq, Structural)]
pub enum EchError {
    ListTooShort,
    ListTruncated,
    /// The list holds no configuration.
    ListEmpty,
    HeaderTruncated(usize),
    ContentsTruncated(usize),
    UnsupportedVersion(u16),
    Truncated,
    /// The length of the cipher suites is no multiple of four.
    SuitesLength(u16),
    /// The public name is not UTF-8.
    PublicName,
    ExtensionsTruncated,
    /// There is no PEM block of the right kind.
    PemNotFound,
    PemNotTerminated,
    PemBase64,
    PemMultiple,
    /// The file that the settings name cannot be read.
    FileNotRead,
}

/// A configuration by its parts.
pub struct EchView {
    pub config_id: nat,
    pub kem_id: nat,
    pub public_key: Seq<u8>,
    pub cipher_suites: Seq<EchCipherSuite>,
    pub maximum_name_length: nat,
    pub public_name: Seq<char>,
}

/// The cipher suites from `pos` to `end`, and where reading them left off.
pub open spec fn suites_at(s: Seq<u8>, pos: nat, end: nat) -> Option<Seq<EchCipherSuite>>
    decreases s.len() - pos,
{
    if pos >= end {
        Some(Seq::empty())
    } else {
        match (number_at(s, pos, 2), number_at(s, pos + 2, 2)) {
            (Some(kdf), Some(aead)) => match suites_at(s, pos + 4, end) {
                Some(rest) => Some(
                    seq![EchCipherSuite { kdf_id: kdf as u16, aead_id: aead as u16 }] + rest,
                ),
                None => None,
            },
            _ => None,
        }
    }
}

/// The contents of a configuration.
#[verifier::opaque]
pub open spec fn ech_contents(s: Seq<u8>) -> Result<EchView, EchError> {
    match (number_at(s, 0, 1), number_at(s, 1, 2), number_at(s, 3, 2)) {
        (Some(config_id), Some(kem_id), Some(key_len)) => match (
            bytes_at(s, 5, key_len),
            number_at(s, 5 + key_len, 2),
        ) {
            (Some(public_key), Some(n)) => if n % 4 != 0 {
                Err(EchError::SuitesLength(n as u16))
            } else {
                let from = 7 + key_len;
                match suites_at(s, from, from + n) {
                    None => Err(EchError::Truncated),
                    Some(cipher_suites) => ech_tail(
                        s,
                        from + n,
                        EchView {
                            config_id,
                            kem_id,
                            public_key,
                            cipher_suites,
                            maximum_name_length: 0,
                            public_name: Seq::empty(),
                        },
                    ),
                }
            },
            _ => Err(EchError::Truncated),
        },
        _ => Err(EchError::Truncated),
    }
}

/// The part of a configuration behind the cipher suites.
pub open spec fn ech_tail(s: Seq<u8>, pos: nat, v: EchView) -> Result<EchView, EchError> {
    match (number_at(s, pos, 1), number_at(s, pos + 1, 1)) {
        (Some(maximum_name_length), Some(n)) => match bytes_at(s, pos + 2, n) {
            None => Err(EchError::Truncated),
            Some(name) => if !valid_utf8(name) {
                Err(EchError::PublicName)
            } else {
                let end = pos + 2 + n;
                let whole = EchView { maximum_name_length, public_name: decode_utf8(name), ..v };
                if end >= s.len() {
                    Ok(whole)
                } else {
                    match number_at(s, end, 2) {
                        None => Err(EchError::Truncated),
                        Some(m) => if end + 2 + m > s.len() {
                            Err(EchError::ExtensionsTruncated)
                        } else {
                            Ok(whole)
                        },
                    }
                }
            },
        },
        _ => Err(EchError::Truncated),
    }
}

/// `c` is the configuration with the given bytes and parts.
pub open spec fn is_config(c: EchConfig, raw: Seq<u8>, v: EchView) -> bool {
    &&& c.version == ECH_CONFIG_VERSION_DRAFT
    &&& c.raw@ == raw
    &&& c.config_id as nat == v.config_id
    &&& c.kem_id as nat == v.kem_id
    &&& c.public_key@ == v.public_key
    &&& c.cipher_suites@ == v.cipher_suites
    &&& c.maximum_name_length as nat == v.maximum_name_length
    &&& c.public_name@ == v.public_name
}

/// The configurations from `pos` on, each by its bytes.
pub open spec fn raw_configs(body: Seq<u8>, pos: nat) -> Result<Seq<Seq<u8>>, EchError>
    decreases body.len() - pos,
{
    if pos >= body.len() {
        Ok(Seq::empty())
    } else if pos + 4 > body.len() {
        Err(EchError::HeaderTruncated(pos as usize))
    } else {
        let len = 4 + be_value(body.subrange(pos as int + 2, pos as int + 4));
        if pos + len > body.len() {
            Err(EchError::ContentsTruncated(pos as usize))
        } else {
            let raw = body.subrange(pos as int, (pos + len) as int);
            match config_view(raw) {
                Err(e) => Err(e),
                Ok(_) => match raw_configs(body, pos + len) {
                    Ok(rest) => Ok(seq![raw] + rest),
                    Err(e) => Err(e),
                },
            }
        }
    }
}

/// The parts of a configuration.
pub open spec fn config_view(raw: Seq<u8>) -> Result<EchView, EchError> {
    let version = be_value(raw.subrange(0, 2));
    if version != ECH_CONFIG_VERSION_DRAFT {
        Err(EchError::UnsupportedVersion(version as u16))
    } else {
        ech_contents(raw.skip(4))
    }
}

/// The configurations of a list, each by its bytes.
pub open spec fn config_list(data: Seq<u8>) -> Result<Seq<Seq<u8>>, EchError> {
    if data.len() < 2 {
        Err(EchError::ListTooShort)
    } else {
        let n = be_value(data.subrange(0, 2));
        if data.len() < 2 + n {
            Err(EchError::ListTruncated)
        } else {
            match raw_configs(data.subrange(2, (2 + n) as int), 0) {
                Err(e) => Err(e),
                Ok(raws) => if raws.len() == 0 {
                    Err(EchError::ListEmpty)
                } else {
                    Ok(raws)
                },
            }
        }
    }
}

/// `configs` are the configurations with the given bytes.
pub open spec fn are_configs(configs: Seq<EchConfig>, raws: Seq<Seq<u8>>) -> bool {
    &&& configs.len() == raws.len()
    &&& forall|i: int|
        0 <= i < configs.len() ==> has_bytes(#[trigger] configs[i], raws[i])
}

/// `c` is the configuration with the given bytes.
pub open spec fn has_bytes(c: EchConfig, raw: Seq<u8>) -> bool {
    match config_view(raw) {
        Ok(v) => is_config(c, raw, v),
        Err(_) => false,
    }
}

/// All the pieces, one after another.
pub open spec fn concat(pieces: Seq<Seq<u8>>) -> Seq<u8>
    decreases pieces.len(),
{
    if pieces.len() == 0 {
        Seq::empty()
    } else {
        pieces[0] + concat(pieces.skip(1))
    }
}

proof fn raws_cover(body: Seq<u8>, pos: nat)
    requires
        pos <= body.len(),
    ensures
        raw_configs(body, pos) matches Ok(raws) ==> concat(raws) == body.skip(pos as int),
    decreases body.len() - pos,
{
    if pos >= body.len() {
        assert(body.skip(pos as int) =~= Seq::empty());
    } else if pos + 4 <= body.len() {
        let len = 4 + be_value(body.subrange(pos as int + 2, pos as int + 4));
        if pos + len <= body.len() {
            raws_cover(body, pos + len);
            let raw = body.subrange(pos as int, (pos + len) as int);
            if let Ok(rest) = raw_configs(body, pos + len) {
                assert((seq![raw] + rest).skip(1) =~= rest);
                assert(raw + body.skip((pos + len) as int) =~= body.skip(pos as int));
            }
        }
    }
}

/// The configurations of a list make up the whole of it: nothing between them is passed
/// over.
pub proof fn configs_cover_the_list(data: Seq<u8>)
    requires
        config_list(data) is Ok,
    ensures
        config_list(data) matches Ok(raws) && raws.len() > 0 && concat(raws) == data.subrange(
            2,
            (2 + be_value(data.subrange(0, 2))) as int,
        ),
{
    let n = be_value(data.subrange(0, 2));
    let body = data.subrange(2, (2 + n) as int);
    raws_cover(body, 0);
    assert(body.skip(0) =~= body);
}

/// Takes `len` bytes.
pub fn take_vec(input: &[u8], pos: &mut usize, len: usize) -> (res: Result<Vec<u8>, EchError>)
    ensures
        match (res, bytes_at(input@, *old(pos) as nat, len as nat)) {
            (Ok(b), Some(c)) => b@ == c && *final(pos) == *old(pos) + len,
            (Err(e), None) => e == EchError::Truncated && *final(pos) == *old(pos),
            _ => false,
        },
{
    match take(input, pos, len) {
        Ok(b) => {
            let v: Vec<u8> = copy_range(b, 0, b.len());
            assert(v@ =~= b@);
            Ok(v)
        },
        Err(_) => Err(EchError::Truncated),
    }
}

fn number8(input: &[u8], pos: &mut usize) -> (res: Result<u8, EchError>)
    ensures
        match (res, number_at(input@, *old(pos) as nat, 1)) {
            (Ok(v), Some(w)) => v as nat == w && *final(pos) == *old(pos) + 1,
            (Err(e), None) => e == EchError::Truncated && *final(pos) == *old(pos),
            _ => false,
        },
{
    match take_u8(input, pos) {
        Ok(v) => Ok(v),
        Err(_) => Err(EchError::Truncated),
    }
}

fn number16(input: &[u8], pos: &mut usize) -> (res: Result<u16, EchError>)
    ensures
        match (res, number_at(input@, *old(pos) as nat, 2)) {
            (Ok(v), Some(w)) => v as nat == w && *final(pos) == *old(pos) + 2,
            (Err(e), None) => e == EchError::Truncated && *final(pos) == *old(pos),
            _ => false,
        },
{
    match take_u16(input, pos) {
        Ok(v) => Ok(v),
        Err(_) => Err(EchError::Truncated),
    }
}

fn read_suites(contents: &[u8], from: usize, n: usize) -> (res: Option<Vec<EchCipherSuite>>)
    requires
        from <= contents@.len(),
        n <= 65535,
        n % 4 == 0,
    ensures
        match (res, suites_at(contents@, from as nat, (from + n) as nat)) {
            (Some(v), Some(w)) => v@ == w && from + n <= contents@.len(),
            (None, None) => true,
            _ => false,
        },
{
    let ghost end = (from + n) as nat;
    let mut suites: Vec<EchCipherSuite> = Vec::new();
    let mut pos: usize = from;
    let mut left: usize = n;
    proof {
        if let Some(w) = suites_at(contents@, from as nat, end) {
            assert(suites@ + w =~= w);
        }
    }
    while left > 0
        invariant
            end == from + n,
            pos + left == end,
            left % 4 == 0,
            pos <= contents@.len(),
            match suites_at(contents@, pos as nat, end) {
                Some(rest) => suites_at(contents@, from as nat, end) == Some(suites@ + rest),
                None => suites_at(contents@, from as nat, end) is None,
            },
        decreases left,
    {
        let ghost before = suites@;
        let ghost at = pos as nat;
        let kdf_id: u16 = match number16(contents, &mut pos) {
            Ok(v) => v,
            Err(_) => {
                return None;
            },
        };
        let aead_id: u16 = match number16(contents, &mut pos) {
            Ok(v) => v,
            Err(_) => {
                return None;
            },
        };
        let suite = EchCipherSuite { kdf_id, aead_id };
        suites.push(suite);
        proof {
            if let Some(rest) = suites_at(contents@, at + 4, end) {
                assert(before + (seq![suite] + rest) =~= suites@ + rest);
            }
        }
        left -= 4;
    }
    assert(suites@ + Seq::<EchCipherSuite>::empty() =~= suites@);
    Some(suites)
}

/// Reads the contents of a configuration.
pub fn parse_ech_config_contents(version: u16, contents: &[u8], raw: Vec<u8>) -> (res: Result<
    EchConfig,
    EchError,
>)
    ensures
        if version != ECH_CONFIG_VERSION_DRAFT {
            res matches Err(e) && e == EchError::UnsupportedVersion(version)
        } else {
            match (res, ech_contents(contents@)) {
                (Ok(c), Ok(v)) => is_config(c, raw@, v),
                (Err(e), Err(f)) => e == f,
                _ => false,
            }
        },
{
    if version != ECH_CONFIG_VERSION_DRAFT {
        return Err(EchError::UnsupportedVersion(version));
    }
    proof {
        reveal(ech_contents);
    }
    let mut pos: usize = 0;
    let config_id: u8 = number8(contents, &mut pos)?;
    let kem_id: u16 = number16(contents, &mut pos)?;
    let key_len: u16 = number16(contents, &mut pos)?;
    let public_key: Vec<u8> = take_vec(contents, &mut pos, key_len as usize)?;
    let n: u16 = number16(contents, &mut pos)?;
    if n % 4 != 0 {
        return Err(EchError::SuitesLength(n));
    }
    let cipher_suites: Vec<EchCipherSuite> = match read_suites(contents, pos, n as usize) {
        Some(v) => v,
        None => {
            return Err(EchError::Truncated);
        },
    };
    pos = pos + n as usize;
    let maximum_name_length: u8 = number8(contents, &mut pos)?;
    let name_len: u8 = number8(contents, &mut pos)?;
    let name: Vec<u8> = take_vec(contents, &mut pos, name_len as usize)?;
    let public_name: String = match utf8_text(&name) {
        Some(t) => t,
        None => {
            return Err(EchError::PublicName);
        },
    };
    if pos < contents.len() {
        let m: u16 = number16(contents, &mut pos)?;
        if m as usize > contents.len() - pos {
            return Err(EchError::ExtensionsTruncated);
        }
    }
    Ok(
        EchConfig {
            version,
            config_id,
            kem_id,
            public_key,
            cipher_suites,
            maximum_name_length,
            public_name,
            raw,
        },
    )
}

/// Reads a configuration.
fn parse_config(raw: &[u8]) -> (res: Result<EchConfig, EchError>)
    requires
        raw@.len() >= 4,
    ensures
        match (res, config_view(raw@)) {
            (Ok(c), Ok(v)) => is_config(c, raw@, v),
            (Err(e), Err(f)) => e == f,
            _ => false,
        },
{
    let version: u16 = read_u16(raw, 0);
    let copy: Vec<u8> = copy_range(raw, 0, raw.len());
    assert(copy@ =~= raw@);
    let contents: &[u8] = &raw[4..raw.len()];
    assert(contents@ =~= raw@.skip(4));
    parse_ech_config_contents(version, contents, copy)
}

/// Reads a configuration list: its length in two bytes and at least one configuration.
pub fn parse_ech_config_list(data: &[u8]) -> (res: Result<Vec<EchConfig>, EchError>)
    ensures
        match (res, config_list(data@)) {
            (Ok(configs), Ok(raws)) => are_configs(configs@, raws),
            (Err(e), Err(f)) => e == f,
            _ => false,
        },
{
    if data.len() < 2 {
        return Err(EchError::ListTooShort);
    }
    let total: usize = read_u16(data, 0) as usize;
    if data.len() - 2 < total {
        return Err(EchError::ListTruncated);
    }
    let body: &[u8] = &data[2..2 + total];
    let mut configs: Vec<EchConfig> = Vec::new();
    let mut pos: usize = 0;
    let ghost mut raws: Seq<Seq<u8>> = Seq::empty();
    proof {
        if let Ok(rest) = raw_configs(body@, 0) {
            assert(raws + rest =~= rest);
        }
    }
    while pos < body.len()
        invariant
            total == body@.len(),
            body.len() <= 65535,
            pos <= body@.len(),
            are_configs(configs@, raws),
            match raw_configs(body@, pos as nat) {
                Ok(rest) => raw_configs(body@, 0) == Ok::<Seq<Seq<u8>>, EchError>(raws + rest),
                Err(e) => raw_configs(body@, 0) == Err::<Seq<Seq<u8>>, EchError>(e),
            },
            data@.len() >= 2 + total,
            total == be_value(data@.subrange(0, 2)),
            body@ == data@.subrange(2, (2 + total) as int),
        decreases body@.len() - pos,
    {
        if body.len() - pos < 4 {
            return Err(EchError::HeaderTruncated(pos));
        }
        let len: usize = 4 + read_u16(body, pos + 2) as usize;
        if len > body.len() - pos {
            return Err(EchError::ContentsTruncated(pos));
        }
        let ghost raw_seq = body@.subrange(pos as int, pos + len);
        let config: EchConfig = match parse_config(&body[pos..pos + len]) {
            Ok(c) => c,
            Err(e) => {
                return Err(e);
            },
        };
        let ghost before = configs@;
        configs.push(config);
        proof {
            let now = raws.push(raw_seq);
            assert forall|i: int| 0 <= i < configs@.len() implies has_bytes(
                #[trigger] configs@[i],
                now[i],
            ) by {
                if i < before.len() {
                    assert(configs@[i] == before[i]);
                    assert(now[i] == raws[i]);
                }
            }
            if let Ok(rest) = raw_configs(body@, (pos + len) as nat) {
                assert(raws + (seq![raw_seq] + rest) =~= raws.push(raw_seq) + rest);
            }
            raws = raws.push(raw_seq);
        }
        pos = pos + len;
    }
    assert(raws + Seq::<Seq<u8>>::empty() =~= raws);
    if configs.len() == 0 {
        return Err(EchError::ListEmpty);
    }
    Ok(configs)
}

// ---- PEM ----

/// The line that opens a PEM block of configurations.
pub open spec fn pem_begin() -> Seq<char> {
    "-----BEGIN ECH CONFIGS-----"@
}

/// The line that closes it.
pub open spec fn pem_end() -> Seq<char> {
    "-----END ECH CONFIGS-----"@
}

/// Whether `c` is white space of ASCII.
pub open spec fn is_ascii_space(c: char) -> bool {
    c == ' ' || c == '\t' || c == '\n' || c == '\r' || c as u32 == 12
}

/// `s` without white space of ASCII.
pub open spec fn without_spaces(s: Seq<char>) -> Seq<char>
    decreases s.len(),
{
    if s.len() == 0 {
        Seq::empty()
    } else if is_ascii_space(s.last()) {
        without_spaces(s.drop_last())
    } else {
        without_spaces(s.drop_last()).push(s.last())
    }
}

/// The bytes of the one block of configurations in a PEM text.
pub open spec fn pem_bytes(s: Seq<char>) -> Result<Seq<u8>, EchError> {
    match first_at(s, pem_begin(), 0) {
        None => Err(EchError::PemNotFound),
        Some(i) => {
            let from = i + pem_begin().len();
            match first_at(s, pem_end(), from) {
                None => Err(EchError::PemNotTerminated),
                Some(to) => match base64_standard(without_spaces(s.subrange(from, to))) {
                    None => Err(EchError::PemBase64),
                    Some(bytes) => if first_at(s, pem_begin(), to + pem_end().len()) is Some {
                        Err(EchError::PemMultiple)
                    } else {
                        Ok(bytes)
                    },
                },
            }
        },
    }
}

fn drop_spaces(chars: &[char]) -> (out: String)
    ensures
        out@ == without_spaces(chars@),
{
    let mut out: String = String::new();
    let mut i: usize = 0;
    while i < chars.len()
        invariant
            i <= chars@.len(),
            out@ == without_spaces(chars@.take(i as int)),
        decreases chars@.len() - i,
    {
        let c: char = chars[i];
        proof {
            assert(chars@.take(i + 1).drop_last() =~= chars@.take(i as int));
            assert(chars@.take(i + 1).last() == c);
        }
        if !(c == ' ' || c == '\t' || c == '\n' || c == '\r' || c as u32 == 12) {
            out.push(c);
        }
        i += 1;
    }
    assert(chars@.take(i as int) =~= chars@);
    out
}

/// Reads the one block of configurations in a PEM text.
pub fn parse_ech_config_pem(pem_text: &str) -> (res: Result<Vec<u8>, EchError>)
    ensures
        match (res, pem_bytes(pem_text@)) {
            (Ok(b), Ok(c)) => b@ == c,
            (Err(e), Err(f)) => e == f,
            _ => false,
        },
{
    let text: Vec<char> = chars_of(pem_text);
    let begin: Vec<char> = chars_of("-----BEGIN ECH CONFIGS-----");
    let end: Vec<char> = chars_of("-----END ECH CONFIGS-----");
    let start: usize = match find_text(&text, &begin, 0) {
        Some(i) => i,
        None => {
            return Err(EchError::PemNotFound);
        },
    };
    assert(start + begin.len() <= text.len());
    let from: usize = start + begin.len();
    let to: usize = match find_text(&text, &end, from) {
        Some(i) => i,
        None => {
            return Err(EchError::PemNotTerminated);
        },
    };
    let clean: String = drop_spaces(&text[from..to]);
    let bytes: Vec<u8> = match base64_decode(&clean) {
        Some(b) => b,
        None => {
            return Err(EchError::PemBase64);
        },
    };
    assert(to + end.len() <= text.len());
    match find_text(&text, &begin, to + end.len()) {
        Some(_) => Err(EchError::PemMultiple),
        None => Ok(bytes),
    }
}

/// The list in a PEM text, if it is a readable one.
pub open spec fn pem_list(s: Seq<char>) -> Result<Seq<u8>, EchError> {
    match pem_bytes(s) {
        Err(e) => Err(e),
        Ok(bytes) => match config_list(bytes) {
            Err(e) => Err(e),
            Ok(_) => Ok(bytes),
        },
    }
}

/// Reads the list in a PEM text and makes sure that it can be used.
pub fn load_ech_pem(pem_text: &str) -> (res: Result<Vec<u8>, EchError>)
    ensures
        match (res, pem_list(pem_text@)) {
            (Ok(b), Ok(c)) => b@ == c,
            (Err(e), Err(f)) => e == f,
            _ => false,
        },
{
    let bytes: Vec<u8> = match parse_ech_config_pem(pem_text) {
        Ok(b) => b,
        Err(e) => {
            return Err(e);
        },
    };
    match parse_ech_config_list(&bytes) {
        Ok(_) => Ok(bytes),
        Err(e) => Err(e),
    }
}

/// The file to read a list from: lists in the settings themselves come before it.
pub open spec fn file_of(options: OutboundECHOptions) -> Option<Seq<char>> {
    if options.config@.len() > 0 {
        None
    } else {
        text_in(options.config_path)
    }
}

/// The file to read before the settings are resolved, if there is one to read.
pub fn ech_file(options: &OutboundECHOptions) -> (path: Option<String>)
    ensures
        text_in(path) == file_of(*options),
{
    if options.config.len() > 0 {
        return None;
    }
    match &options.config_path {
        Some(p) => Some(p.clone()),
        None => None,
    }
}

/// The list that the settings hold, given the text of the file that they name, if that could be
/// read. Settings that name no list leave it to the DNS.
pub open spec fn settings_list(options: OutboundECHOptions, file: Option<Seq<char>>) -> Result<
    Option<Seq<u8>>,
    EchError,
> {
    let pem = if options.config@.len() > 0 {
        Some(joined_text(texts(options.config@), "\n"@))
    } else {
        file
    };
    match (pem, options.config@.len() > 0 || options.config_path is Some) {
        (_, false) => Ok(None),
        (None, true) => Err(EchError::FileNotRead),
        (Some(text), true) => match pem_list(text) {
            Ok(list) => Ok(Some(list)),
            Err(e) => Err(e),
        },
    }
}

/// Reads the list that the settings hold. `file` is the text of the file that they name, or
/// nothing where it cannot be read.
pub fn resolve_ech_config_list(options: &OutboundECHOptions, file: Option<&str>) -> (res: Result<
    Option<Vec<u8>>,
    EchError,
>)
    ensures
        match (
            res,
            settings_list(
                *options,
                match file {
                    Some(t) => Some(t@),
                    None => None,
                },
            ),
        ) {
            (Ok(Some(b)), Ok(Some(c))) => b@ == c,
            (Ok(None), Ok(None)) => true,
            (Err(e), Err(f)) => e == f,
            _ => false,
        },
{
    let loaded: Result<Vec<u8>, EchError> = if options.config.len() > 0 {
        let pem: String = join_text(&options.config, "\n");
        load_ech_pem(&pem)
    } else if options.config_path.is_some() {
        match file {
            Some(text) => load_ech_pem(text),
            None => Err(EchError::FileNotRead),
        }
    } else {
        return Ok(None);
    };
    match loaded {
        Ok(b) => Ok(Some(b)),
        Err(e) => Err(e),
    }
}

// ---- DNS answers ----

/// Where the name at `pos` ends; a pointer ends it too.
pub open spec fn name_end(s: Seq<u8>, pos: nat) -> Option<nat>
    decreases s.len() - pos,
{
    if pos >= s.len() {
        None
    } else if s[pos as int] == 0 {
        Some(pos + 1)
    } else if s[pos as int] >= 192 {
        Some(pos + 2)
    } else if pos + 1 + s[pos as int] >= s.len() {
        None
    } else {
        name_end(s, pos + 1 + s[pos as int] as nat)
    }
}

/// Where `n` questions end that start at `pos`.
pub open spec fn questions_end(s: Seq<u8>, pos: nat, n: nat) -> Option<nat>
    decreases n,
{
    if n == 0 {
        Some(pos)
    } else {
        match name_end(s, pos) {
            None => None,
            Some(p) => questions_end(s, p + 4, (n - 1) as nat),
        }
    }
}

/// The list parameter of a service record, looking from `pos` on.
pub open spec fn ech_param(s: Seq<u8>, pos: nat) -> Option<Seq<char>>
    decreases s.len() - pos,
{
    if pos + 4 > s.len() {
        None
    } else {
        let key = be_value(s.subrange(pos as int, pos as int + 2));
        let len = be_value(s.subrange(pos as int + 2, pos as int + 4));
        if pos + 4 + len > s.len() {
            None
        } else if key == SVCB_KEY_ECH {
            let v = s.subrange(pos as int + 4, (pos + 4 + len) as int);
            if valid_utf8(v) {
                Some(decode_utf8(v))
            } else {
                None
            }
        } else {
            ech_param(s, pos + 4 + len)
        }
    }
}

/// The list parameter in the data of a service record.
pub open spec fn record_param(rdata: Seq<u8>) -> Option<Seq<char>> {
    if rdata.len() < 2 {
        None
    } else {
        match name_end(rdata, 2) {
            None => None,
            Some(p) => ech_param(rdata, p),
        }
    }
}

/// The list parameter of the first of `n` answers that has one.
pub open spec fn answers_param(s: Seq<u8>, pos: nat, n: nat) -> Option<Seq<char>>
    decreases n,
{
    if n == 0 {
        None
    } else {
        match name_end(s, pos) {
            None => None,
            Some(p) => if p + 10 > s.len() {
                None
            } else {
                let kind = be_value(s.subrange(p as int, p as int + 2));
                let len = be_value(s.subrange(p as int + 8, p as int + 10));
                if p + 10 + len > s.len() {
                    None
                } else {
                    let data = s.subrange(p as int + 10, (p + 10 + len) as int);
                    if kind == 65 && record_param(data) is Some {
                        record_param(data)
                    } else {
                        answers_param(s, p + 10 + len, (n - 1) as nat)
                    }
                }
            },
        }
    }
}

/// The list parameter in a DNS answer.
pub open spec fn response_param(s: Seq<u8>) -> Option<Seq<char>> {
    if s.len() < 12 {
        None
    } else {
        match questions_end(s, 12, be_value(s.subrange(4, 6))) {
            None => None,
            Some(p) => answers_param(s, p, be_value(s.subrange(6, 8))),
        }
    }
}

/// Passes over the name at `pos`.
pub fn skip_name(msg: &[u8], pos: usize) -> (end: Option<usize>)
    requires
        msg@.len() + 2 <= usize::MAX,
    ensures
        match (end, name_end(msg@, pos as nat)) {
            (Some(a), Some(b)) => a as nat == b && a <= msg@.len() + 1,
            (None, None) => true,
            _ => false,
        },
{
    let mut at: usize = pos;
    while at < msg.len()
        invariant
            msg@.len() + 2 <= usize::MAX,
            name_end(msg@, pos as nat) == name_end(msg@, at as nat),
        decreases msg@.len() - at,
    {
        let len: usize = msg[at] as usize;
        if len == 0 {
            return Some(at + 1);
        }
        if len >= 192 {
            return Some(at + 2);
        }
        if len + 1 >= msg.len() - at {
            return None;
        }
        at = at + 1 + len;
    }
    None
}

/// Passes over the name at `pos` in the data of a record of `full_msg`. A pointer leads out of
/// the data, but takes two bytes in it all the same.
pub fn skip_name_in(rdata: &[u8], pos: usize, full_msg: &[u8]) -> (end: Option<usize>)
    requires
        rdata@.len() + 2 <= usize::MAX,
    ensures
        match (end, name_end(rdata@, pos as nat)) {
            (Some(a), Some(b)) => a as nat == b && a <= rdata@.len() + 1,
            (None, None) => true,
            _ => false,
        },
{
    skip_name(rdata, pos)
}

/// Finds the list parameter in the data of a service record.
pub fn parse_svcb_ech_param(rdata: &[u8], full_msg: &[u8]) -> (param: Option<String>)
    requires
        rdata@.len() + 2 <= usize::MAX,
    ensures
        match (param, record_param(rdata@)) {
            (Some(a), Some(b)) => a@ == b,
            (None, None) => true,
            _ => false,
        },
{
    if rdata.len() < 2 {
        return None;
    }
    let mut pos: usize = match skip_name_in(rdata, 2, full_msg) {
        Some(p) => p,
        None => {
            return None;
        },
    };
    while pos < rdata.len() && rdata.len() - pos >= 4
        invariant
            pos <= rdata@.len() + 1,
            rdata@.len() + 2 <= usize::MAX,
            record_param(rdata@) == ech_param(rdata@, pos as nat),
        decreases rdata@.len() + 1 - pos,
    {
        let key: u16 = read_u16(rdata, pos);
        let len: usize = read_u16(rdata, pos + 2) as usize;
        if len > rdata.len() - (pos + 4) {
            return None;
        }
        if key == SVCB_KEY_ECH {
            return utf8_text(&rdata[pos + 4..pos + 4 + len]);
        }
        pos = pos + 4 + len;
    }
    None
}

/// Finds the list parameter in a DNS answer.
pub fn extract_ech_param_from_https_response(resp: &[u8], _query_name: &str) -> (param: Option<
    String,
>)
    requires
        resp@.len() + 5 <= usize::MAX,
    ensures
        match (param, response_param(resp@)) {
            (Some(a), Some(b)) => a@ == b,
            (None, None) => true,
            _ => false,
        },
{
    if resp.len() < 12 {
        return None;
    }
    let questions: u16 = read_u16(resp, 4);
    let answers: u16 = read_u16(resp, 6);
    let mut pos: usize = 12;
    let mut i: u16 = questions;
    while i > 0
        invariant
            resp@.len() + 5 <= usize::MAX,
            questions_end(resp@, 12, questions as nat) == questions_end(
                resp@,
                pos as nat,
                i as nat,
            ),
            resp@.len() >= 12,
            questions == be_value(resp@.subrange(4, 6)),
        decreases i,
    {
        pos = match skip_name(resp, pos) {
            Some(p) => p + 4,
            None => {
                return None;
            },
        };
        i -= 1;
    }
    let mut j: u16 = answers;
    while j > 0
        invariant
            resp@.len() + 5 <= usize::MAX,
            response_param(resp@) == answers_param(resp@, pos as nat, j as nat),
        decreases j,
    {
        let at: usize = match skip_name(resp, pos) {
            Some(p) => p,
            None => {
                return None;
            },
        };
        if at > resp.len() || resp.len() - at < 10 {
            return None;
        }
        let kind: u16 = read_u16(resp, at);
        let len: usize = read_u16(resp, at + 8) as usize;
        if len > resp.len() - (at + 10) {
            return None;
        }
        if kind == 65 {
            match parse_svcb_ech_param(&resp[at + 10..at + 10 + len], resp) {
                Some(v) => {
                    return Some(v);
                },
                None => {},
            }
        }
        pos = at + 10 + len;
        j -= 1;
    }
    None
}

/// The list that a DNS answer holds in base64, or that it holds none.
pub fn ech_from_dns_answer(resp: &[u8], query_name: &str) -> (res: Result<Option<Vec<u8>>, EchError>)
    requires
        resp@.len() + 5 <= usize::MAX,
    ensures
        match response_param(resp@) {
            None => res matches Ok(None),
            Some(param) => match (res, base64_standard(param)) {
                (Ok(Some(b)), Some(c)) => b@ == c,
                (Err(e), None) => e == EchError::PemBase64,
                _ => false,
            },
        },
{
    match extract_ech_param_from_https_response(resp, query_name) {
        None => Ok(None),
        Some(param) => match base64_decode(&param) {
            Some(b) => Ok(Some(b)),
            None => Err(EchError::PemBase64),
        },
    }
}

/// `s` without dots at its end.
pub open spec fn without_final_dots(s: Seq<char>) -> Seq<char>
    decreases s.len(),
{
    if s.len() > 0 && s.last() == '.' {
        without_final_dots(s.drop_last())
    } else {
        s
    }
}

/// The name to ask the DNS about.
pub fn ech_query_name(server_name: &str) -> (name: String)
    ensures
        name@ == without_final_dots(server_name@),
{
    let chars: Vec<char> = chars_of(server_name);
    let mut n: usize = chars.len();
    assert(chars@.take(n as int) =~= chars@);
    while n > 0 && chars[n - 1] == '.'
        invariant
            n <= chars@.len(),
            without_final_dots(server_name@) == without_final_dots(chars@.take(n as int)),
        decreases n,
    {
        assert(chars@.take(n as int).drop_last() =~= chars@.take(n - 1));
        n -= 1;
    }
    assert(chars@.subrange(0, n as int) =~= chars@.take(n as int));
    text_of(&chars, 0, n)
}

/// The name that a configuration leaves visible.
pub open spec fn visible_name(raw: Seq<u8>) -> Seq<char> {
    match config_view(raw) {
        Ok(v) => v.public_name,
        Err(_) => Seq::empty(),
    }
}

/// Why a connection with an encrypted hello is refused.
#[derive(Debug)]
pub enum EchRefusal {
    BadList(EchError),
    /// The list is fine, but the TLS library cannot encrypt the hello. The names are those that
    /// would have stayed visible.
    Unsupported(Vec<String>),
}

/// Refuses a connection with an encrypted hello: going on without it would show what it was
/// to hide.
pub fn refuse_ech(list: &[u8]) -> (refusal: EchRefusal)
    ensures
        match (refusal, config_list(list@)) {
            (EchRefusal::BadList(e), Err(f)) => e == f,
            (EchRefusal::Unsupported(names), Ok(raws)) => names@.len() == raws.len() && forall|
                i: int,
            | 0 <= i < raws.len() ==> (#[trigger] names@[i])@ == visible_name(raws[i]),
            _ => false,
        },
{
    match parse_ech_config_list(list) {
        Err(e) => EchRefusal::BadList(e),
        Ok(configs) => {
            let mut names: Vec<String> = Vec::new();
            let mut i: usize = 0;
            while i < configs.len()
                invariant
                    i <= configs@.len(),
                    names@.len() == i,
                    forall|j: int| 0 <= j < i ==> (#[trigger] names@[j])@ == configs@[j].public_name@,
                decreases configs@.len() - i,
            {
                names.push(configs[i].public_name.clone());
                i += 1;
            }
            proof {
                let raws = config_list(list@).unwrap();
                assert forall|k: int| 0 <= k < raws.len() implies (#[trigger] names@[k])@
                    == visible_name(raws[k]) by {
                    assert(has_bytes(configs@[k], raws[k]));
                }
            }
            EchRefusal::Unsupported(names)
        },
    }
}

} // verus!
