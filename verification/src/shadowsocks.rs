//! Shadowsocks client: framing of the encrypted stream and of datagrams.
//!
//! A stream is a salt followed by chunks, each a sealed length and a sealed payload. The 2022
//! edition puts a request header in front of the chunks, and a response header with padding
//! in front of those of the server. The session key of a salt is derived by the caller.

use crate::crypto::{
    aead_key_len, aead_open, aead_seal, can_open, can_seal, opened, sealed, Aead, TAG_LEN,
};
use crate::random::{random_below, random_bytes};
use crate::text::text_eq;
use crate::wire::{
    be_bytes, be_bytes_len, be_bytes_mod, be_round_trip, be_value, byte_range, byte_range_grows,
    bytes_eq,
    copy_range, le_bytes, le_round_trip, put_bytes, put_le, put_len16, put_u64, read_u16, read_u64,
};
use vstd::prelude::*;

verus! {

/// The largest payload of a chunk.
pub const MAX_PAYLOAD: usize = 0x3fff;

/// The longest padding of a request header.
pub const SS2022_MAX_PADDING: usize = 900;

pub const SS2022_HEADER_TYPE_CLIENT: u8 = 0;

pub const SS2022_HEADER_TYPE_SERVER: u8 = 1;

/// How far the clocks of both sides may be apart, in seconds.
pub const MAX_CLOCK_SKEW: i64 = 30;

/// The methods.
#[derive(Clone, Copy, Debug, PartialEq, Eq, Structural)]
pub enum Method {
    Plain,
    Aes128Gcm,
    Aes256Gcm,
    ChaCha20Poly1305,
    Blake3Aes128Gcm,
    Blake3Aes256Gcm,
    Blake3ChaCha20Poly1305,
}

/// What can go wrong.
#[derive(Clone, Copy, Debug, PartialEq, Eq, Structural)]
pub enum SsError {
    UnknownMethod,
    /// The key is no base64.
    KeyEncoding,
    /// The key has this length instead of the method's.
    KeyLength(usize),
    /// A message is too long for the cipher.
    Seal,
    /// The response header does not open.
    OpenHeader,
    /// The response header is of another type.
    HeaderType(u8),
    /// The response is too old or from the future.
    Timestamp,
    /// The response does not belong to the request.
    SaltMismatch,
    OpenPadding,
    OpenLength,
    OpenPayload,
}

/// The cipher of a method; the plain method has none.
pub open spec fn method_aead(m: Method) -> Option<Aead> {
    match m {
        Method::Plain => None,
        Method::Aes128Gcm | Method::Blake3Aes128Gcm => Some(Aead::Aes128Gcm),
        Method::Aes256Gcm | Method::Blake3Aes256Gcm => Some(Aead::Aes256Gcm),
        Method::ChaCha20Poly1305 | Method::Blake3ChaCha20Poly1305 => Some(Aead::ChaCha20Poly1305),
    }
}

/// The length of the keys and salts of a method.
pub open spec fn method_key_len(m: Method) -> nat {
    match method_aead(m) {
        Some(a) => aead_key_len(a),
        None => 0,
    }
}

/// Whether a method is of the 2022 edition.
pub open spec fn method_2022(m: Method) -> bool {
    m == Method::Blake3Aes128Gcm || m == Method::Blake3Aes256Gcm || m
        == Method::Blake3ChaCha20Poly1305
}

/// The method of a name.
pub open spec fn named_method(s: Seq<char>) -> Option<Method> {
    if s == "none"@ {
        Some(Method::Plain)
    } else if s == "aes-128-gcm"@ {
        Some(Method::Aes128Gcm)
    } else if s == "aes-256-gcm"@ {
        Some(Method::Aes256Gcm)
    } else if s == "chacha20-ietf-poly1305"@ {
        Some(Method::ChaCha20Poly1305)
    } else if s == "2022-blake3-aes-128-gcm"@ {
        Some(Method::Blake3Aes128Gcm)
    } else if s == "2022-blake3-aes-256-gcm"@ {
        Some(Method::Blake3Aes256Gcm)
    } else if s == "2022-blake3-chacha20-poly1305"@ {
        Some(Method::Blake3ChaCha20Poly1305)
    } else {
        None
    }
}

impl Method {
    /// The method of a name.
    pub fn named(s: &str) -> (res: Result<Method, SsError>)
        ensures
            match (res, named_method(s@)) {
                (Ok(m), Some(n)) => m == n,
                (Err(e), None) => e == SsError::UnknownMethod,
                _ => false,
            },
    {
        if text_eq(s, "none") {
            Ok(Method::Plain)
        } else if text_eq(s, "aes-128-gcm") {
            Ok(Method::Aes128Gcm)
        } else if text_eq(s, "aes-256-gcm") {
            Ok(Method::Aes256Gcm)
        } else if text_eq(s, "chacha20-ietf-poly1305") {
            Ok(Method::ChaCha20Poly1305)
        } else if text_eq(s, "2022-blake3-aes-128-gcm") {
            Ok(Method::Blake3Aes128Gcm)
        } else if text_eq(s, "2022-blake3-aes-256-gcm") {
            Ok(Method::Blake3Aes256Gcm)
        } else if text_eq(s, "2022-blake3-chacha20-poly1305") {
            Ok(Method::Blake3ChaCha20Poly1305)
        } else {
            Err(SsError::UnknownMethod)
        }
    }

    pub fn aead(self) -> (a: Option<Aead>)
        ensures
            a == method_aead(self),
    {
        match self {
            Method::Plain => None,
            Method::Aes128Gcm | Method::Blake3Aes128Gcm => Some(Aead::Aes128Gcm),
            Method::Aes256Gcm | Method::Blake3Aes256Gcm => Some(Aead::Aes256Gcm),
            Method::ChaCha20Poly1305 | Method::Blake3ChaCha20Poly1305 => Some(
                Aead::ChaCha20Poly1305,
            ),
        }
    }

    pub fn key_len(self) -> (n: usize)
        ensures
            n as nat == method_key_len(self),
            n <= 32,
    {
        match self {
            Method::Plain => 0,
            Method::Aes128Gcm | Method::Blake3Aes128Gcm => 16,
            _ => 32,
        }
    }

    /// Salts are as long as keys.
    pub fn salt_len(self) -> (n: usize)
        ensures
            n as nat == method_key_len(self),
            n <= 32,
    {
        self.key_len()
    }

    pub fn is_2022(self) -> (yes: bool)
        ensures
            yes == method_2022(self),
    {
        matches!(
            self,
            Method::Blake3Aes128Gcm | Method::Blake3Aes256Gcm | Method::Blake3ChaCha20Poly1305
        )
    }
}

// ---- the cipher of one direction ----

/// The cipher of one direction, with the number of the next message.
pub struct AeadCipher {
    pub method: Method,
    pub key: Vec<u8>,
    pub counter: u64,
}

/// The encryption of the message with the given number. The plain method changes nothing.
pub open spec fn ss_sealed(m: Method, key: Seq<u8>, counter: nat, plain: Seq<u8>) -> Seq<u8> {
    match method_aead(m) {
        Some(a) => sealed(a, key, le_bytes(counter, 12), Seq::empty(), plain),
        None => plain,
    }
}

/// The message with the given number whose encryption is `text`.
pub open spec fn ss_opened(m: Method, key: Seq<u8>, counter: nat, text: Seq<u8>) -> Option<
    Seq<u8>,
> {
    match method_aead(m) {
        Some(a) => opened(a, key, le_bytes(counter, 12), Seq::empty(), text),
        None => Some(text),
    }
}

/// Whether a message of that length can be encrypted.
pub open spec fn ss_fits(m: Method, len: nat) -> bool {
    match method_aead(m) {
        Some(a) => can_seal(a, len, 0),
        None => true,
    }
}

/// How much longer a message gets by encryption.
pub open spec fn tag_len(m: Method) -> nat {
    if m == Method::Plain {
        0
    } else {
        TAG_LEN as nat
    }
}

impl AeadCipher {
    pub open spec fn wf(&self) -> bool {
        self.key@.len() == method_key_len(self.method)
    }

    /// Everything but the number of the next message.
    pub open spec fn same_key(&self, other: &AeadCipher) -> bool {
        self.method == other.method && self.key@ == other.key@
    }

    pub fn new(method: Method, subkey: Vec<u8>) -> (c: AeadCipher)
        requires
            subkey@.len() == method_key_len(method),
        ensures
            c.wf(),
            c.method == method,
            c.key == subkey,
            c.counter == 0,
    {
        AeadCipher { method, key: subkey, counter: 0 }
    }

    fn nonce_of(counter: u64) -> (nonce: Vec<u8>)
        ensures
            nonce@ == le_bytes(counter as nat, 12),
            nonce@.len() == 12,
    {
        let mut nonce: Vec<u8> = Vec::new();
        put_le(&mut nonce, counter, 12);
        proof {
            assert(nonce@ =~= le_bytes(counter as nat, 12));
            byte_range_grows(counter as nat);
            le_round_trip(counter as nat, 12);
        }
        nonce
    }

    /// Encrypts the next message. It opens to what went in.
    pub fn seal(&mut self, plain: &[u8]) -> (res: Result<Vec<u8>, SsError>)
        requires
            old(self).wf(),
            old(self).counter < u64::MAX,
        ensures
            final(self).wf(),
            final(self).same_key(old(self)),
            final(self).counter == old(self).counter + 1,
            match res {
                Ok(text) => ss_fits(old(self).method, plain@.len()) && text@ == ss_sealed(
                    old(self).method,
                    old(self).key@,
                    old(self).counter as nat,
                    plain@,
                ) && text@.len() == plain@.len() + tag_len(old(self).method) && ss_opened(
                    old(self).method,
                    old(self).key@,
                    old(self).counter as nat,
                    text@,
                ) == Some(plain@),
                Err(e) => e == SsError::Seal && !ss_fits(old(self).method, plain@.len()),
            },
    {
        let nonce: Vec<u8> = Self::nonce_of(self.counter);
        self.counter = self.counter + 1;
        let none: Vec<u8> = Vec::new();
        assert(none@ =~= Seq::empty());
        match self.method.aead() {
            Some(a) => match aead_seal(a, &self.key, &nonce, &none, plain) {
                Some(text) => Ok(text),
                None => Err(SsError::Seal),
            },
            None => {
                let text: Vec<u8> = copy_range(plain, 0, plain.len());
                assert(text@ =~= plain@);
                Ok(text)
            },
        }
    }

    /// Looks at what the next message says, without taking it.
    pub fn peek(&self, text: &[u8]) -> (plain: Option<Vec<u8>>)
        requires
            self.wf(),
        ensures
            match (
                plain,
                ss_opened(self.method, self.key@, self.counter as nat, text@),
            ) {
                (Some(p), Some(q)) => p@ == q && q.len() + tag_len(self.method) == text@.len(),
                (None, None) => true,
                _ => false,
            },
            forall|p: Seq<u8>|
                (method_aead(self.method) matches Some(a) ==> can_open(a, text@.len(), 0))
                    && p.len() + tag_len(self.method) == text@.len() && #[trigger] ss_sealed(self.method, self.key@, self.counter as nat, p) == text@
                    ==> (plain matches Some(q) && q@ == p),
    {
        let nonce: Vec<u8> = Self::nonce_of(self.counter);
        let none: Vec<u8> = Vec::new();
        assert(none@ =~= Seq::empty());
        match self.method.aead() {
            Some(a) => {
                let out: Option<Vec<u8>> = aead_open(a, &self.key, &nonce, &none, text);
                assert forall|p: Seq<u8>|
                    can_open(a, text@.len(), 0) && p.len() + tag_len(self.method) == text@.len()
                        && #[trigger] ss_sealed(
                        self.method,
                        self.key@,
                        self.counter as nat,
                        p,
                    ) == text@ implies (out matches Some(q) && q@ == p) by {
                    assert(sealed(a, self.key@, nonce@, none@, p) == text@);
                }
                out
            },
            None => {
                let out: Vec<u8> = copy_range(text, 0, text.len());
                assert(out@ =~= text@);
                Some(out)
            },
        }
    }

    /// Opens the next message.
    pub fn open(&mut self, text: &[u8]) -> (plain: Option<Vec<u8>>)
        requires
            old(self).wf(),
            old(self).counter < u64::MAX,
        ensures
            final(self).wf(),
            final(self).same_key(old(self)),
            final(self).counter == old(self).counter + 1,
            match (
                plain,
                ss_opened(old(self).method, old(self).key@, old(self).counter as nat, text@),
            ) {
                (Some(p), Some(q)) => p@ == q && q.len() + tag_len(old(self).method)
                    == text@.len(),
                (None, None) => true,
                _ => false,
            },
            forall|p: Seq<u8>|
                (method_aead(old(self).method) matches Some(a) ==> can_open(a, text@.len(), 0))
                    && p.len() + tag_len(old(self).method) == text@.len() && #[trigger] ss_sealed(
                    old(self).method,
                    old(self).key@,
                    old(self).counter as nat,
                    p,
                ) == text@ ==> (plain matches Some(q) && q@ == p),
    {
        let plain: Option<Vec<u8>> = self.peek(text);
        self.counter = self.counter + 1;
        plain
    }
}

// ---- sending ----

/// A chunk: the sealed length and the sealed payload.
pub open spec fn chunk(m: Method, key: Seq<u8>, counter: nat, data: Seq<u8>) -> Seq<u8> {
    ss_sealed(m, key, counter, be_bytes(data.len(), 2)) + ss_sealed(m, key, counter + 1, data)
}

/// Data as chunks, each as large as may be.
pub open spec fn chunks(m: Method, key: Seq<u8>, counter: nat, data: Seq<u8>) -> Seq<u8>
    decreases data.len(),
{
    if data.len() == 0 {
        Seq::empty()
    } else if data.len() <= MAX_PAYLOAD {
        chunk(m, key, counter, data)
    } else {
        chunk(m, key, counter, data.take(MAX_PAYLOAD as int)) + chunks(
            m,
            key,
            counter + 2,
            data.skip(MAX_PAYLOAD as int),
        )
    }
}

/// What the bytes of chunks say: the data of the whole chunks up to the first that does not open,
/// and what is wrong with that one.
pub open spec fn chunk_data(m: Method, key: Seq<u8>, counter: nat, raw: Seq<u8>) -> (
    Seq<u8>,
    Option<SsError>,
)
    decreases raw.len(),
{
    if raw.len() < 18 {
        (Seq::empty(), None)
    } else {
        match ss_opened(m, key, counter, raw.subrange(0, 18)) {
            None => (Seq::empty(), Some(SsError::OpenLength)),
            Some(len) => {
                let n = 34 + be_value(len.subrange(0, 2)) as int;
                if raw.len() < n {
                    (Seq::empty(), None)
                } else {
                    match ss_opened(m, key, counter + 1, raw.subrange(18, n)) {
                        None => (Seq::empty(), Some(SsError::OpenPayload)),
                        Some(data) => {
                            let (rest, end) = chunk_data(m, key, counter + 2, raw.skip(n));
                            (data + rest, end)
                        },
                    }
                }
            },
        }
    }
}

/// The first chunk of `raw` opens to the data, under the keys of its number.
pub open spec fn first_chunk(
    m: Method,
    key: Seq<u8>,
    counter: nat,
    raw: Seq<u8>,
    data: Seq<u8>,
) -> bool {
    &&& data.len() <= 65535
    &&& raw.len() >= data.len() + 34
    &&& ss_opened(m, key, counter, raw.subrange(0, 18)) == Some(be_bytes(data.len(), 2))
    &&& ss_opened(m, key, counter + 1, raw.subrange(18, data.len() as int + 34)) == Some(data)
}

proof fn first_chunk_counts(
    m: Method,
    key: Seq<u8>,
    counter: nat,
    raw: Seq<u8>,
    data: Seq<u8>,
)
    requires
        first_chunk(m, key, counter, raw, data),
    ensures
        ({
            let (rest, end) = chunk_data(m, key, counter + 2, raw.skip(data.len() as int + 34));
            chunk_data(m, key, counter, raw) == (data + rest, end)
        }),
{
    be_bytes_len(data.len(), 2);
    assert(byte_range(2) == 65536) by {
        reveal_with_fuel(byte_range, 3);
    }
    be_round_trip(data.len(), 2);
    let len = be_bytes(data.len(), 2);
    assert(len.subrange(0, 2) =~= len);
}

/// How many chunks the data makes.
pub open spec fn chunk_total(len: nat) -> nat {
    (len + MAX_PAYLOAD - 1) as nat / MAX_PAYLOAD as nat
}

proof fn method_fits(m: Method, len: nat)
    requires
        len <= 100_000_000,
    ensures
        ss_fits(m, len),
{
}

/// Both parts of a chunk are longer than what they hold by a tag, and open to it.
spec fn chunk_opens(m: Method, key: Seq<u8>, counter: nat, data: Seq<u8>) -> bool {
    let head = ss_sealed(m, key, counter, be_bytes(data.len(), 2));
    let body = ss_sealed(m, key, counter + 1, data);
    &&& head.len() == 18
    &&& body.len() == data.len() + 16
    &&& ss_opened(m, key, counter, head) == Some(be_bytes(data.len(), 2))
    &&& ss_opened(m, key, counter + 1, body) == Some(data)
}

/// A chunk in front of others comes before their data.
proof fn chunk_in_front(m: Method, key: Seq<u8>, counter: nat, data: Seq<u8>, tail: Seq<u8>)
    requires
        data.len() <= 65535,
        chunk_opens(m, key, counter, data),
    ensures
        ({
            let (rest, end) = chunk_data(m, key, counter + 2, tail);
            chunk_data(m, key, counter, chunk(m, key, counter, data) + tail) == (data + rest, end)
        }),
{
    let all = chunk(m, key, counter, data) + tail;
    let n = data.len() as int + 34;
    assert(all.subrange(0, 18) =~= ss_sealed(m, key, counter, be_bytes(data.len(), 2)));
    assert(all.subrange(18, n) =~= ss_sealed(m, key, counter + 1, data));
    assert(all.skip(n) =~= tail);
    first_chunk_counts(m, key, counter, all, data);
}

/// Appends one chunk.
fn put_chunk(out: &mut Vec<u8>, enc: &mut AeadCipher, data: &[u8]) -> (res: Result<(), SsError>)
    requires
        old(enc).wf(),
        old(enc).counter < u64::MAX - 1,
    ensures
        final(enc).wf(),
        final(enc).same_key(old(enc)),
        res is Ok <==> ss_fits(old(enc).method, data@.len()),
        res matches Err(e) ==> e == SsError::Seal,
        res is Ok ==> final(enc).counter == old(enc).counter + 2 && final(out)@ == old(out)@ + chunk(
            old(enc).method,
            old(enc).key@,
            old(enc).counter as nat,
            data@,
        ),
        res is Ok && old(enc).method != Method::Plain ==> chunk_opens(
            old(enc).method,
            old(enc).key@,
            old(enc).counter as nat,
            data@,
        ),
{
    let mut len: Vec<u8> = Vec::new();
    put_len16(&mut len, data.len());
    proof {
        be_bytes_len(data@.len(), 2);
        method_fits(enc.method, 2);
        assert(len@ =~= be_bytes(data@.len(), 2));
    }
    let head: Vec<u8> = match enc.seal(&len) {
        Ok(h) => h,
        Err(e) => {
            return Err(e);
        },
    };
    let body: Vec<u8> = match enc.seal(data) {
        Ok(b) => b,
        Err(e) => {
            return Err(e);
        },
    };
    put_bytes(out, &head);
    put_bytes(out, &body);
    assert(out@ =~= old(out)@ + chunk(
        old(enc).method,
        old(enc).key@,
        old(enc).counter as nat,
        data@,
    ));
    Ok(())
}

/// One chunk with all of the data. Of its length, two bytes are sent.
pub fn write_chunk(enc: &mut AeadCipher, data: &[u8]) -> (res: Result<Vec<u8>, SsError>)
    requires
        old(enc).wf(),
        old(enc).counter < u64::MAX - 1,
    ensures
        final(enc).wf(),
        final(enc).same_key(old(enc)),
        match res {
            Ok(out) => ss_fits(old(enc).method, data@.len()) && final(enc).counter == old(
                enc,
            ).counter + 2 && out@ == chunk(
                old(enc).method,
                old(enc).key@,
                old(enc).counter as nat,
                data@,
            ),
            Err(e) => e == SsError::Seal && !ss_fits(old(enc).method, data@.len()),
        },
        old(enc).method != Method::Plain && data@.len() <= 65535 ==> (res matches Ok(out)
            && chunk_data(old(enc).method, old(enc).key@, old(enc).counter as nat, out@) == (
            data@,
            None::<SsError>,
        )),
{
    let mut out: Vec<u8> = Vec::new();
    match put_chunk(&mut out, enc, data) {
        Ok(()) => {
            proof {
                let m = old(enc).method;
                let count = old(enc).counter as nat;
                let none = Seq::<u8>::empty();
                assert(out@ =~= chunk(m, old(enc).key@, count, data@));
                assert(out@ + none =~= out@);
                assert(data@ + none =~= data@);
                if m != Method::Plain && data@.len() <= 65535 {
                    chunk_in_front(m, old(enc).key@, count, data@, none);
                }
            }
            Ok(out)
        },
        Err(e) => Err(e),
    }
}

/// The chunks in `out` hold the data, whatever follows them.
spec fn goes_on(
    m: Method,
    key: Seq<u8>,
    start: nat,
    out: Seq<u8>,
    data: Seq<u8>,
    counter: nat,
    tail: Seq<u8>,
) -> bool {
    let (rest, end) = chunk_data(m, key, counter, tail);
    chunk_data(m, key, start, out + tail) == (data + rest, end)
}

/// Puts data into chunks. A reader with the same key and number gets all of it back.
pub fn write_chunks(enc: &mut AeadCipher, data: &[u8]) -> (out: Vec<u8>)
    requires
        old(enc).wf(),
        old(enc).counter + 2 * chunk_total(data@.len()) < u64::MAX,
    ensures
        final(enc).wf(),
        final(enc).same_key(old(enc)),
        final(enc).counter == old(enc).counter + 2 * chunk_total(data@.len()),
        out@ == chunks(old(enc).method, old(enc).key@, old(enc).counter as nat, data@),
        old(enc).method != Method::Plain ==> chunk_data(
            old(enc).method,
            old(enc).key@,
            old(enc).counter as nat,
            out@,
        ) == (data@, None::<SsError>),
{
    let mut out: Vec<u8> = Vec::new();
    let mut at: usize = 0;
    let ghost m = enc.method;
    let ghost key = enc.key@;
    let ghost start = enc.counter as nat;
    let ghost all = chunks(m, key, start, data@);
    assert(data@.skip(0) =~= data@);
    assert(out@ + all =~= all);
    assert forall|tail: Seq<u8>| #[trigger] goes_on(m, key, start, out@, data@.take(0), start, tail) by {
        assert(out@ + tail =~= tail);
        let rest = chunk_data(m, key, start, tail).0;
        assert(data@.take(0) + rest =~= rest);
    }
    while at < data.len()
        invariant
            at <= data@.len(),
            enc.wf(),
            enc.method == m,
            enc.key@ == key,
            enc.same_key(old(enc)),
            all == chunks(m, key, start, data@),
            start + 2 * chunk_total(data@.len()) < u64::MAX,
            enc.counter + 2 * chunk_total((data@.len() - at) as nat) == start + 2 * chunk_total(
                data@.len(),
            ),
            out@ + chunks(m, key, enc.counter as nat, data@.skip(at as int)) == all,
            m != Method::Plain ==> forall|tail: Seq<u8>| #[trigger]
                goes_on(m, key, start, out@, data@.take(at as int), enc.counter as nat, tail),
        decreases data@.len() - at,
    {
        let left: usize = data.len() - at;
        let end: usize = if left > MAX_PAYLOAD {
            at + MAX_PAYLOAD
        } else {
            data.len()
        };
        let ghost rest = data@.skip(at as int);
        let ghost before = out@;
        let ghost count = enc.counter as nat;
        let piece: &[u8] = &data[at..end];
        proof {
            method_fits(enc.method, piece@.len());
            let n = rest.len();
            if n > MAX_PAYLOAD {
                assert(piece@ =~= rest.take(MAX_PAYLOAD as int));
                assert(rest.skip(MAX_PAYLOAD as int) =~= data@.skip(end as int));
                assert(chunk_total(n) == chunk_total((n - MAX_PAYLOAD) as nat) + 1);
            } else {
                assert(piece@ =~= rest);
                assert(chunk_total(n) == 1);
                assert(chunk_total(0) == 0);
                assert(data@.skip(end as int) =~= Seq::empty());
            }
        }
        match put_chunk(&mut out, enc, piece) {
            Ok(()) => {},
            Err(_) => {},
        }
        proof {
            let tail = chunks(m, key, count + 2, data@.skip(end as int));
            assert(before + (chunk(m, key, count, piece@) + tail) =~= out@ + tail);
            if rest.len() <= MAX_PAYLOAD {
                assert(chunk(m, key, count, piece@) + tail =~= chunk(m, key, count, piece@));
            }
            if m != Method::Plain {
                let first = chunk(m, key, count, piece@);
                assert forall|tail: Seq<u8>| #[trigger]
                    goes_on(m, key, start, out@, data@.take(end as int), count + 2, tail) by {
                    assert(goes_on(m, key, start, before, data@.take(at as int), count, first
                        + tail));
                    chunk_in_front(m, key, count, piece@, tail);
                    assert(before + (first + tail) =~= out@ + tail);
                    let late = chunk_data(m, key, count + 2, tail).0;
                    assert(data@.take(at as int) + (piece@ + late) =~= data@.take(end as int)
                        + late);
                }
            }
        }
        at = end;
    }
    assert(chunk_total(0) == 0);
    assert(data@.skip(at as int) =~= Seq::empty());
    assert(out@ + Seq::<u8>::empty() =~= out@);
    proof {
        if m != Method::Plain {
            let none = Seq::<u8>::empty();
            assert(goes_on(m, key, start, out@, data@.take(at as int), enc.counter as nat, none));
            assert(out@ + none =~= out@);
            assert(data@.take(at as int) + none =~= data@);
        }
    }
    out
}

// ---- opening a stream ----

/// The fixed part of a request header of the 2022 edition.
pub open spec fn fixed_header(now: u64, variable_len: nat) -> Seq<u8> {
    seq![SS2022_HEADER_TYPE_CLIENT] + be_bytes(now as nat, 8) + be_bytes(variable_len, 2)
}

/// The variable part.
pub open spec fn variable_header(addr: Seq<u8>, padding: Seq<u8>) -> Seq<u8> {
    addr + be_bytes(padding.len(), 2) + padding
}

/// What opens a stream: the salt, then the request header or the first chunk.
pub open spec fn stream_head(
    m: Method,
    key: Seq<u8>,
    salt: Seq<u8>,
    addr: Seq<u8>,
    now: u64,
    padding: Seq<u8>,
) -> Seq<u8> {
    if method_2022(m) {
        salt + ss_sealed(m, key, 0, fixed_header(now, variable_header(addr, padding).len()))
            + ss_sealed(m, key, 1, variable_header(addr, padding))
    } else {
        salt + chunk(m, key, 0, addr)
    }
}

/// Whether the address and the padding are short enough to be encrypted.
pub open spec fn head_fits(m: Method, addr: Seq<u8>, padding: Seq<u8>) -> bool {
    ss_fits(
        m,
        if method_2022(m) {
            variable_header(addr, padding).len()
        } else {
            addr.len()
        },
    )
}

/// What opens a stream, and the cipher that goes on from there. Time and padding matter only to
/// the 2022 edition.
pub fn open_stream(
    method: Method,
    subkey: Vec<u8>,
    salt: &[u8],
    addr: &[u8],
    now: u64,
    padding: &[u8],
) -> (res: Result<(Vec<u8>, AeadCipher), SsError>)
    requires
        subkey@.len() == method_key_len(method),
        addr@.len() + padding@.len() + 2 <= usize::MAX,
    ensures
        match res {
            Ok((out, enc)) => head_fits(method, addr@, padding@) && enc.wf() && enc.method == method
                && enc.key@ == subkey@ && enc.counter == 2 && out@ == stream_head(
                method,
                subkey@,
                salt@,
                addr@,
                now,
                padding@,
            ),
            Err(e) => e == SsError::Seal && !head_fits(method, addr@, padding@),
        },
        res matches Ok((out, _)) ==> (method_2022(method) ==> ({
            let n = salt@.len() as int;
            &&& out@.take(n) == salt@
            &&& ss_opened(method, subkey@, 0, out@.subrange(n, n + 27)) matches Some(h) && h.len()
                == 11 && h[0] == 0 && be_value(h.subrange(1, 9)) == now && be_value(
                h.subrange(9, 11),
            ) == (addr@.len() + 2 + padding@.len()) % 65536
            &&& ss_opened(method, subkey@, 1, out@.skip(n + 27)) == Some(
                addr@ + be_bytes(padding@.len(), 2) + padding@,
            )
        })),
{
    let ghost key = subkey@;
    let mut enc: AeadCipher = AeadCipher::new(method, subkey);
    let mut out: Vec<u8> = copy_range(salt, 0, salt.len());
    assert(out@ =~= salt@);
    if !method.is_2022() {
        match put_chunk(&mut out, &mut enc, addr) {
            Ok(()) => {},
            Err(e) => {
                return Err(e);
            },
        }
        return Ok((out, enc));
    }
    let mut fixed: Vec<u8> = vec![SS2022_HEADER_TYPE_CLIENT];
    put_u64(&mut fixed, now);
    put_len16(&mut fixed, addr.len() + 2 + padding.len());
    let mut variable: Vec<u8> = copy_range(addr, 0, addr.len());
    put_len16(&mut variable, padding.len());
    put_bytes(&mut variable, padding);
    proof {
        be_bytes_len(now as nat, 8);
        be_bytes_len(padding@.len(), 2);
        be_bytes_len((addr@.len() + 2 + padding@.len()) as nat, 2);
        assert(variable@ =~= variable_header(addr@, padding@));
        assert(fixed@ =~= fixed_header(now, variable@.len()));
        method_fits(method, fixed@.len());
    }
    let a: Vec<u8> = match enc.seal(&fixed) {
        Ok(a) => a,
        Err(e) => {
            return Err(e);
        },
    };
    let b: Vec<u8> = match enc.seal(&variable) {
        Ok(b) => b,
        Err(e) => {
            return Err(e);
        },
    };
    put_bytes(&mut out, &a);
    put_bytes(&mut out, &b);
    assert(out@ =~= stream_head(method, key, salt@, addr@, now, padding@));
    proof {
        let n = salt@.len() as int;
        let total = (addr@.len() + 2 + padding@.len()) as nat;
        assert(out@.take(n) =~= salt@);
        assert(out@.subrange(n, n + 27) =~= a@);
        assert(out@.skip(n + 27) =~= b@);
        reveal_with_fuel(byte_range, 9);
        assert(byte_range(2) == 65536 && byte_range(8) == 0x1_0000_0000_0000_0000);
        be_round_trip(now as nat, 8);
        be_bytes_mod(total, 2);
        be_round_trip(total % 65536, 2);
        assert(fixed@.subrange(1, 9) =~= be_bytes(now as nat, 8));
        assert(fixed@.subrange(9, 11) =~= be_bytes(total, 2));
    }
    Ok((out, enc))
}

/// Random padding for a request header: at least one byte.
pub fn request_padding() -> (padding: Vec<u8>)
    ensures
        1 <= padding@.len() <= SS2022_MAX_PADDING,
{
    random_bytes(random_below(1, SS2022_MAX_PADDING + 1))
}

// ---- receiving ----

/// What the end of the connection means while more bytes are awaited.
#[derive(Clone, Copy, Debug, PartialEq, Eq, Structural)]
pub enum AtEnd {
    /// The stream ends.
    Clean,
    /// The response header is cut short.
    InHeader,
    /// Its padding is cut short.
    InPadding,
}

/// What to do next.
#[derive(Debug)]
pub enum SsRead {
    /// There is data to hand out.
    Data,
    /// Feed more bytes.
    More(AtEnd),
    /// Derive the session key of this salt, and install it.
    DeriveKey(Vec<u8>),
    /// Something was read that is no data; go on.
    Progress,
    Failed(SsError),
}

/// The receiving side of a stream.
pub struct SsReader {
    pub method: Method,
    pub dec: Option<AeadCipher>,
    /// The salt of the request, which the response must repeat.
    pub request_salt: Option<Vec<u8>>,
    /// Whether the age of the response is checked.
    pub check_time: bool,
    /// What has arrived and is not decrypted.
    pub raw: Vec<u8>,
    /// Data that is not handed out.
    pub plain: Vec<u8>,
    /// The length of the padding, between the response header and the end of the padding.
    pub padding: Option<usize>,
    /// Whether the response header is over.
    pub response_read: bool,
}

/// A number of eight bytes as a signed one.
pub open spec fn signed(v: nat) -> int {
    if v < 0x8000_0000_0000_0000 {
        v as int
    } else {
        v - 0x1_0000_0000_0000_0000
    }
}

/// The length of the padding that a response header announces, if it answers the request.
pub open spec fn response_padding(
    fixed: Seq<u8>,
    key_len: nat,
    request_salt: Option<Seq<u8>>,
    now: Option<int>,
) -> Result<nat, SsError> {
    let sent = signed(be_value(fixed.subrange(1, 9)));
    if fixed[0] != SS2022_HEADER_TYPE_SERVER {
        Err(SsError::HeaderType(fixed[0]))
    } else if now matches Some(t) && (t - sent > MAX_CLOCK_SKEW || sent - t > MAX_CLOCK_SKEW) {
        Err(SsError::Timestamp)
    } else if request_salt matches Some(salt) && fixed.subrange(9, 9 + key_len as int) != salt {
        Err(SsError::SaltMismatch)
    } else {
        Ok(be_value(fixed.subrange(9 + key_len as int, 11 + key_len as int)))
    }
}

/// The length of a sealed response header.
pub open spec fn response_len(m: Method) -> nat {
    11 + method_key_len(m) + TAG_LEN as nat
}

/// What a reader is in the middle of.
pub enum Stage {
    Salt,
    Header,
    Padding(nat),
    Chunks,
}

impl SsReader {
    pub open spec fn wf(&self) -> bool {
        &&& self.dec matches Some(c) ==> c.wf() && c.method == self.method
        &&& self.padding matches Some(n) ==> n <= 65535
    }

    /// Whether the messages of this side can still be numbered.
    pub open spec fn countable(&self) -> bool {
        self.dec matches Some(c) ==> c.counter < u64::MAX - 2
    }

    pub open spec fn stage(&self) -> Stage {
        if self.dec is None {
            Stage::Salt
        } else if method_2022(self.method) && !self.response_read {
            match self.padding {
                None => Stage::Header,
                Some(n) => Stage::Padding(n as nat),
            }
        } else {
            Stage::Chunks
        }
    }

    pub open spec fn salt_seq(&self) -> Option<Seq<u8>> {
        match self.request_salt {
            Some(s) => Some(s@),
            None => None,
        }
    }

    /// What the bytes `from..to` that have arrived say, `ahead` messages after the next.
    pub open spec fn message(&self, from: nat, to: nat, ahead: nat) -> Option<Seq<u8>> {
        match self.dec {
            Some(c) => ss_opened(
                c.method,
                c.key@,
                c.counter as nat + ahead,
                self.raw@.subrange(from as int, to as int),
            ),
            None => None,
        }
    }

    /// The parts that no step changes.
    pub open spec fn same_stream(&self, other: &SsReader) -> bool {
        &&& self.method == other.method
        &&& self.request_salt == other.request_salt
        &&& self.check_time == other.check_time
        &&& (self.dec is Some) == (other.dec is Some)
        &&& self.dec matches Some(c) ==> c.same_key(&other.dec.unwrap())
    }

    /// `n` messages and `bytes` of what has arrived were used up since `other`.
    pub open spec fn advanced(&self, other: &SsReader, bytes: nat, n: nat) -> bool {
        &&& self.same_stream(other)
        &&& self.raw@ == other.raw@.skip(bytes as int)
        &&& self.dec matches Some(c) ==> c.counter == other.dec.unwrap().counter + n
    }

    /// A reader for the response to a request.
    pub fn new(method: Method, salt: &[u8], check_time: bool) -> (r: SsReader)
        ensures
            r.wf(),
            r.method == method,
            r.dec is None,
            r.salt_seq() == if method_2022(method) {
                Some(salt@)
            } else {
                None
            },
            r.check_time == check_time,
            r.raw@.len() == 0,
            r.plain@.len() == 0,
            r.padding is None,
            !r.response_read,
    {
        let request_salt: Option<Vec<u8>> = if method.is_2022() {
            let copy: Vec<u8> = copy_range(salt, 0, salt.len());
            assert(copy@ =~= salt@);
            Some(copy)
        } else {
            None
        };
        SsReader {
            method,
            dec: None,
            request_salt,
            check_time,
            raw: Vec::new(),
            plain: Vec::new(),
            padding: None,
            response_read: false,
        }
    }

    /// Takes bytes that arrived.
    pub fn feed(&mut self, bytes: &[u8])
        requires
            old(self).wf(),
        ensures
            final(self).wf(),
            received(*old(self), *final(self), bytes@),
    {
        put_bytes(&mut self.raw, bytes);
    }

    /// Installs the session key of the salt, which is thereby used up.
    pub fn install_key(&mut self, subkey: Vec<u8>)
        requires
            old(self).wf(),
            old(self).dec is None,
            old(self).raw@.len() >= method_key_len(old(self).method),
            subkey@.len() == method_key_len(old(self).method),
        ensures
            final(self).wf(),
            keyed(*old(self), *final(self), subkey@),
    {
        let n: usize = self.method.salt_len();
        let rest: Vec<u8> = copy_range(&self.raw, n, self.raw.len());
        assert(rest@ =~= self.raw@.skip(n as int));
        self.raw = rest;
        self.dec = Some(AeadCipher::new(self.method, subkey));
    }

    fn drop_front(&mut self, n: usize)
        requires
            n <= old(self).raw@.len(),
        ensures
            *final(self) == (SsReader { raw: final(self).raw, ..*old(self) }),
            final(self).raw@ == old(self).raw@.skip(n as int),
    {
        let rest: Vec<u8> = copy_range(&self.raw, n, self.raw.len());
        assert(rest@ =~= self.raw@.skip(n as int));
        self.raw = rest;
    }

    fn check_response(&self, fixed: &[u8], now: i64) -> (res: Result<usize, SsError>)
        requires
            fixed@.len() == 11 + method_key_len(self.method),
        ensures
            match (
                res,
                response_padding(
                    fixed@,
                    method_key_len(self.method),
                    self.salt_seq(),
                    if self.check_time {
                        Some(now as int)
                    } else {
                        None
                    },
                ),
            ) {
                (Ok(a), Ok(b)) => a as nat == b && a <= 65535,
                (Err(e), Err(f)) => e == f,
                _ => false,
            },
    {
        let n: usize = self.method.key_len();
        if fixed[0] != SS2022_HEADER_TYPE_SERVER {
            return Err(SsError::HeaderType(fixed[0]));
        }
        if self.check_time {
            let raw: u64 = read_u64(fixed, 1);
            let sent: i128 = if raw < 0x8000_0000_0000_0000 {
                raw as i128
            } else {
                raw as i128 - 0x1_0000_0000_0000_0000
            };
            let skew: i128 = now as i128 - sent;
            if skew > MAX_CLOCK_SKEW as i128 || skew < -(MAX_CLOCK_SKEW as i128) {
                return Err(SsError::Timestamp);
            }
        }
        match &self.request_salt {
            Some(salt) => {
                if !bytes_eq(&fixed[9..9 + n], salt) {
                    return Err(SsError::SaltMismatch);
                }
            },
            None => {},
        }
        Ok(read_u16(fixed, 9 + n) as usize)
    }

    /// What the next step amounts to.
    pub open spec fn plan(&self, now: int) -> Plan {
        if self.plain@.len() > 0 {
            Plan::Ready
        } else {
            match self.stage() {
                Stage::Salt => {
                    let n = method_key_len(self.method);
                    if self.raw@.len() < n {
                        Plan::More(AtEnd::Clean)
                    } else {
                        Plan::Derive(self.raw@.take(n as int))
                    }
                },
                Stage::Header => self.plan_header(now),
                Stage::Padding(p) => {
                    let n = p + TAG_LEN as nat;
                    if self.raw@.len() < n {
                        Plan::More(AtEnd::InPadding)
                    } else if self.message(0, n, 0) is None {
                        Plan::Fail(SsError::OpenPadding, 0, 1)
                    } else {
                        Plan::Padding(n)
                    }
                },
                Stage::Chunks => self.plan_chunk(),
            }
        }
    }

    /// What the next step amounts to while the response header is awaited.
    pub open spec fn plan_header(&self, now: int) -> Plan {
        let n = response_len(self.method);
        if self.raw@.len() < n {
            Plan::More(AtEnd::InHeader)
        } else {
            match self.message(0, n, 0) {
                None => Plan::Fail(SsError::OpenHeader, 0, 1),
                Some(fixed) => match response_padding(
                    fixed,
                    method_key_len(self.method),
                    self.salt_seq(),
                    if self.check_time {
                        Some(now)
                    } else {
                        None
                    },
                ) {
                    Err(e) => Plan::Fail(e, n, 1),
                    Ok(p) => Plan::Header(n, p),
                },
            }
        }
    }

    /// What the next step amounts to once chunks come.
    pub open spec fn plan_chunk(&self) -> Plan {
        let head = 2 + TAG_LEN as nat;
        if self.raw@.len() < head {
            Plan::More(AtEnd::Clean)
        } else {
            match self.message(0, head, 0) {
                None => Plan::Fail(SsError::OpenLength, 0, 0),
                Some(len) => {
                    let n = head + be_value(len.subrange(0, 2)) + TAG_LEN as nat;
                    if self.raw@.len() < n {
                        Plan::More(AtEnd::Clean)
                    } else {
                        match self.message(head, n, 1) {
                            None => Plan::Fail(SsError::OpenPayload, 0, 2),
                            Some(data) => Plan::Chunk(n, data),
                        }
                    }
                },
            }
        }
    }

    /// Whether the bytes that have arrived start with the chunk of some data, under the key
    /// and the number of this side.
    pub open spec fn starts_with_chunk(&self, data: Seq<u8>) -> bool {
        &&& self.plain@.len() == 0
        &&& self.stage() is Chunks
        &&& self.method != Method::Plain
        &&& data.len() <= 65535
        &&& self.raw@.len() >= data.len() + 34
        &&& self.dec matches Some(c) && ({
            &&& self.raw@.take(18) == ss_sealed(
                self.method,
                c.key@,
                c.counter as nat,
                be_bytes(data.len(), 2),
            )
            &&& self.raw@.subrange(18, data.len() as int + 34) == ss_sealed(
                self.method,
                c.key@,
                c.counter as nat + 1,
                data,
            )
        })
    }

    fn step_response(&mut self, now: i64) -> (s: SsRead)
        requires
            old(self).wf(),
            old(self).countable(),
            old(self).plain@.len() == 0,
            old(self).stage() is Header || old(self).stage() is Padding,
        ensures
            did(s, *old(self), *final(self), old(self).plan(now as int)),
            final(self).wf(),
    {
        let mut dec: AeadCipher = match self.dec.take() {
            Some(d) => d,
            None => {
                return SsRead::Progress;
            },
        };
        match self.padding {
            None => {
                let n: usize = 11 + self.method.key_len() + TAG_LEN;
                if self.raw.len() < n {
                    self.dec = Some(dec);
                    return SsRead::More(AtEnd::InHeader);
                }
                let fixed: Vec<u8> = match dec.peek(&self.raw[0..n]) {
                    Some(f) => f,
                    None => {
                        dec.counter = dec.counter + 1;
                        self.dec = Some(dec);
                        assert(self.raw@.skip(0) =~= self.raw@);
                        return SsRead::Failed(SsError::OpenHeader);
                    },
                };
                dec.counter = dec.counter + 1;
                let checked: Result<usize, SsError> = self.check_response(&fixed, now);
                self.dec = Some(dec);
                self.drop_front(n);
                match checked {
                    Err(e) => SsRead::Failed(e),
                    Ok(p) => {
                        self.padding = Some(p);
                        SsRead::Progress
                    },
                }
            },
            Some(p) => {
                let n: usize = p + TAG_LEN;
                if self.raw.len() < n {
                    self.dec = Some(dec);
                    return SsRead::More(AtEnd::InPadding);
                }
                if dec.peek(&self.raw[0..n]).is_none() {
                    dec.counter = dec.counter + 1;
                    self.dec = Some(dec);
                    assert(self.raw@.skip(0) =~= self.raw@);
                    return SsRead::Failed(SsError::OpenPadding);
                }
                dec.counter = dec.counter + 1;
                self.dec = Some(dec);
                self.drop_front(n);
                self.response_read = true;
                SsRead::Progress
            },
        }
    }

    fn step_chunk(&mut self) -> (s: SsRead)
        requires
            old(self).wf(),
            old(self).countable(),
            old(self).plain@.len() == 0,
            old(self).stage() is Chunks,
        ensures
            did(s, *old(self), *final(self), old(self).plan_chunk()),
            final(self).wf(),
            forall|data: Seq<u8>| #[trigger]
                old(self).starts_with_chunk(data) ==> s is Data && final(self).plain@ == data
                    && final(self).advanced(old(self), data.len() + 34, 2)
                    && final(self).response_read == old(self).response_read,
    {
        let head: usize = 2 + TAG_LEN;
        if self.raw.len() < head {
            return SsRead::More(AtEnd::Clean);
        }
        let mut dec: AeadCipher = match self.dec.take() {
            Some(d) => d,
            None => {
                return SsRead::Progress;
            },
        };
        let first: &[u8] = &self.raw[0..head];
        assert(first@ =~= self.raw@.take(18));
        let len: Vec<u8> = match dec.peek(first) {
            Some(l) => l,
            None => {
                proof {
                    assert forall|data: Seq<u8>| #[trigger] old(self).starts_with_chunk(
                        data,
                    ) implies false by {
                        be_bytes_len(data.len(), 2);
                        assert(ss_sealed(
                            dec.method,
                            dec.key@,
                            dec.counter as nat,
                            be_bytes(data.len(), 2),
                        ) == first@);
                    }
                }
                self.dec = Some(dec);
                assert(self.raw@.skip(0) =~= self.raw@);
                return SsRead::Failed(SsError::OpenLength);
            },
        };
        proof {
            assert forall|data: Seq<u8>| #[trigger] old(self).starts_with_chunk(data) implies len@
                == be_bytes(data.len(), 2) && be_value(len@.subrange(0, 2)) == data.len() by {
                assert(ss_sealed(
                    dec.method,
                    dec.key@,
                    dec.counter as nat,
                    be_bytes(data.len(), 2),
                ) == first@);
                be_bytes_len(data.len(), 2);
                assert(len@.subrange(0, 2) =~= len@);
                assert(byte_range(2) == 65536) by {
                    reveal_with_fuel(byte_range, 3);
                }
                be_round_trip(data.len(), 2);
            }
        }
        let n: usize = head + read_u16(&len, 0) as usize + TAG_LEN;
        if self.raw.len() < n {
            self.dec = Some(dec);
            return SsRead::More(AtEnd::Clean);
        }
        dec.counter = dec.counter + 1;
        let second: &[u8] = &self.raw[head..n];
        let opened: Option<Vec<u8>> = dec.peek(second);
        proof {
            assert forall|data: Seq<u8>| #[trigger] old(self).starts_with_chunk(
                data,
            ) implies opened matches Some(d) && d@ == data by {
                assert(second@ == self.raw@.subrange(18, data.len() as int + 34));
                assert(ss_sealed(dec.method, dec.key@, dec.counter as nat, data) == second@);
            }
        }
        match opened {
            None => {
                dec.counter = dec.counter + 1;
                self.dec = Some(dec);
                assert(self.raw@.skip(0) =~= self.raw@);
                SsRead::Failed(SsError::OpenPayload)
            },
            Some(data) => {
                dec.counter = dec.counter + 1;
                self.dec = Some(dec);
                self.drop_front(n);
                self.plain = data;
                SsRead::Data
            },
        }
    }

    /// Does the next thing that can be done with what has arrived. A failure uses up the messages
    /// that were opened, and a header that was refused: the stream is of no more use.
    /// Where the next chunk was sealed under the same key with the same number, its data comes
    /// out as it went in.
    pub fn step(&mut self, now: i64) -> (s: SsRead)
        requires
            old(self).wf(),
            old(self).countable(),
        ensures
            did(s, *old(self), *final(self), old(self).plan(now as int)),
            final(self).wf(),
            forall|data: Seq<u8>| #[trigger]
                old(self).starts_with_chunk(data) ==> s is Data && final(self).plain@ == data
                    && final(self).advanced(old(self), data.len() + 34, 2)
                    && final(self).response_read == old(self).response_read,
    {
        if self.plain.len() > 0 {
            return SsRead::Data;
        }
        if self.dec.is_none() {
            let n: usize = self.method.salt_len();
            if self.raw.len() < n {
                return SsRead::More(AtEnd::Clean);
            }
            let salt: Vec<u8> = copy_range(&self.raw, 0, n);
            assert(salt@ =~= self.raw@.take(n as int));
            return SsRead::DeriveKey(salt);
        }
        if self.method.is_2022() && !self.response_read {
            return self.step_response(now);
        }
        self.step_chunk()
    }

    /// Hands out data, at most `n` bytes.
    pub fn take(&mut self, n: usize) -> (data: Vec<u8>)
        ensures
            handed_out(*old(self), *final(self), n as nat, data@),
    {
        let m: usize = if n < self.plain.len() {
            n
        } else {
            self.plain.len()
        };
        let data: Vec<u8> = copy_range(&self.plain, 0, m);
        let rest: Vec<u8> = copy_range(&self.plain, m, self.plain.len());
        assert(data@ =~= self.plain@.take(m as int));
        assert(rest@ =~= self.plain@.skip(m as int));
        self.plain = rest;
        data
    }
}

/// What a step is going to do.
pub enum Plan {
    Ready,
    More(AtEnd),
    Derive(Seq<u8>),
    /// Take a response header of that length, which announces that much padding.
    Header(nat, nat),
    /// Take padding of that length.
    Padding(nat),
    /// Take a chunk of that length with this data.
    Chunk(nat, Seq<u8>),
    /// Give up for this reason, with so many bytes and so many messages used up.
    Fail(SsError, nat, nat),
}

/// The step did what was planned.
pub open spec fn did(s: SsRead, old: SsReader, new: SsReader, plan: Plan) -> bool {
    match plan {
        Plan::Ready => s is Data && new == old,
        Plan::More(at) => s matches SsRead::More(e) && e == at && new == old,
        Plan::Derive(salt) => s matches SsRead::DeriveKey(x) && x@ == salt && new == old,
        Plan::Fail(e, n, k) => (s matches SsRead::Failed(f) && f == e) && new.advanced(&old, n, k)
            && new.padding == old.padding && new.response_read == old.response_read && new.plain
            == old.plain,
        Plan::Header(n, p) => s is Progress && new.advanced(&old, n, 1) && (new.padding matches
            Some(q) && q as nat == p) && new.response_read == old.response_read && new.plain
            == old.plain,
        Plan::Padding(n) => s is Progress && new.advanced(&old, n, 1) && new.padding == old.padding
            && new.response_read && new.plain == old.plain,
        Plan::Chunk(n, data) => s is Data && new.advanced(&old, n, 2) && new.padding == old.padding
            && new.response_read == old.response_read && new.plain@ == data,
    }
}

/// Bytes came in.
pub open spec fn received(before: SsReader, after: SsReader, bytes: Seq<u8>) -> bool {
    &&& after == (SsReader { raw: after.raw, ..before })
    &&& after.raw@ == before.raw@ + bytes
}

/// The session key was set, and the salt is used up.
pub open spec fn keyed(before: SsReader, after: SsReader, key: Seq<u8>) -> bool {
    &&& after == (SsReader { dec: after.dec, raw: after.raw, ..before })
    &&& after.dec matches Some(c) && c.method == before.method && c.key@ == key && c.counter == 0
    &&& after.raw@ == before.raw@.skip(method_key_len(before.method) as int)
}

/// Data went out: all that there is, but no more than `n` bytes.
pub open spec fn handed_out(before: SsReader, after: SsReader, n: nat, data: Seq<u8>) -> bool {
    let m = if n < before.plain@.len() {
        n as int
    } else {
        before.plain@.len() as int
    };
    &&& after == (SsReader { plain: after.plain, ..before })
    &&& data == before.plain@.take(m)
    &&& after.plain@ == before.plain@.skip(m)
}

// ---- a whole response ----

/// Something that happens to a reader.
pub enum ReadMove {
    /// Bytes come in.
    Feed(Seq<u8>),
    /// The session key is set.
    Key(Seq<u8>),
    /// A step at this time, with this outcome.
    Step(int, SsRead),
    /// At most so many bytes are asked for, and these are handed out.
    Take(nat, Seq<u8>),
}

/// The move leads from one state of a reader to the other, and the stream goes on. Where it sets
/// the session key, that is `key`.
pub open spec fn moved(m: ReadMove, before: SsReader, after: SsReader, key: Seq<u8>) -> bool {
    match m {
        ReadMove::Feed(bytes) => received(before, after, bytes),
        ReadMove::Key(k) => k == key && before.dec is None && before.raw@.len() >= method_key_len(
            before.method,
        ) && keyed(before, after, k),
        ReadMove::Step(now, s) => did(s, before, after, before.plan(now)) && !(s is Failed),
        ReadMove::Take(n, data) => handed_out(before, after, n, data),
    }
}

/// The moves lead from the first of the states to the last.
pub open spec fn led(states: Seq<SsReader>, moves: Seq<ReadMove>, key: Seq<u8>) -> bool {
    &&& states.len() == moves.len() + 1
    &&& forall|i: int|
        0 <= i < moves.len() ==> #[trigger] moved(moves[i], states[i], states[i + 1], key)
}

/// The bytes that come in by a move.
pub open spec fn bytes_in(m: ReadMove) -> Seq<u8> {
    match m {
        ReadMove::Feed(bytes) => bytes,
        _ => Seq::empty(),
    }
}

/// The data that goes out by a move.
pub open spec fn data_out(m: ReadMove) -> Seq<u8> {
    match m {
        ReadMove::Take(_, data) => data,
        _ => Seq::empty(),
    }
}

/// All bytes that came in.
pub open spec fn arrived(moves: Seq<ReadMove>) -> Seq<u8>
    decreases moves.len(),
{
    if moves.len() == 0 {
        Seq::empty()
    } else {
        arrived(moves.drop_last()) + bytes_in(moves.last())
    }
}

/// All data that was handed out.
pub open spec fn delivered(moves: Seq<ReadMove>) -> Seq<u8>
    decreases moves.len(),
{
    if moves.len() == 0 {
        Seq::empty()
    } else {
        delivered(moves.drop_last()) + data_out(moves.last())
    }
}

/// What the bytes from the padding on say, the padding being `p` bytes long.
pub open spec fn padding_data(m: Method, key: Seq<u8>, counter: nat, p: nat, raw: Seq<u8>) -> (
    Seq<u8>,
    Option<SsError>,
) {
    let n = p + TAG_LEN as nat;
    if raw.len() < n {
        (Seq::empty(), None)
    } else if ss_opened(m, key, counter, raw.subrange(0, n as int)) is None {
        (Seq::empty(), Some(SsError::OpenPadding))
    } else {
        chunk_data(m, key, counter + 1, raw.skip(n as int))
    }
}

/// What the bytes from the response header on say, its age apart.
pub open spec fn header_data(
    m: Method,
    key: Seq<u8>,
    counter: nat,
    request_salt: Option<Seq<u8>>,
    raw: Seq<u8>,
) -> (Seq<u8>, Option<SsError>) {
    let n = response_len(m);
    if raw.len() < n {
        (Seq::empty(), None)
    } else {
        match ss_opened(m, key, counter, raw.subrange(0, n as int)) {
            None => (Seq::empty(), Some(SsError::OpenHeader)),
            Some(fixed) => match response_padding(fixed, method_key_len(m), request_salt, None) {
                Err(e) => (Seq::empty(), Some(e)),
                Ok(p) => padding_data(m, key, counter + 1, p, raw.skip(n as int)),
            },
        }
    }
}

/// What the bytes of a response say: the data of its chunks up to where it goes wrong, and what
/// goes wrong there. The age of the response is left out of account.
pub open spec fn response_data(
    m: Method,
    key: Seq<u8>,
    request_salt: Option<Seq<u8>>,
    bytes: Seq<u8>,
) -> (Seq<u8>, Option<SsError>) {
    let n = method_key_len(m);
    if bytes.len() < n {
        (Seq::empty(), None)
    } else if method_2022(m) {
        header_data(m, key, 0, request_salt, bytes.skip(n as int))
    } else {
        chunk_data(m, key, 0, bytes.skip(n as int))
    }
}

/// What is still to come out of a reader, once `more` has arrived.
pub open spec fn to_come(r: SsReader, key: Seq<u8>, more: Seq<u8>) -> (Seq<u8>, Option<SsError>) {
    let raw = r.raw@ + more;
    match r.dec {
        None => response_data(r.method, key, r.salt_seq(), raw),
        Some(c) => match r.stage() {
            Stage::Header => header_data(r.method, c.key@, c.counter as nat, r.salt_seq(), raw),
            Stage::Padding(p) => padding_data(r.method, c.key@, c.counter as nat, p, raw),
            _ => chunk_data(r.method, c.key@, c.counter as nat, raw),
        },
    }
}

/// A reader that nothing has happened to.
pub open spec fn fresh(r: SsReader) -> bool {
    &&& r.dec is None
    &&& r.raw@.len() == 0
    &&& r.plain@.len() == 0
    &&& r.padding is None
    &&& !r.response_read
}

/// What holds of a reader along the way.
spec fn on_the_way(r: SsReader, start: SsReader) -> bool {
    &&& r.method == start.method
    &&& r.request_salt == start.request_salt
    &&& match r.dec {
        None => r.padding is None && !r.response_read,
        Some(c) => c.method == r.method,
    }
}

/// What the bytes say stays so when more follow them, as far as they are read.
proof fn front_stays(raw: Seq<u8>, x: Seq<u8>, from: int, n: int)
    requires
        0 <= from <= n <= raw.len(),
    ensures
        (raw + x).subrange(from, n) == raw.subrange(from, n),
        (raw + x).skip(n) == raw.skip(n) + x,
{
    assert((raw + x).subrange(from, n) =~= raw.subrange(from, n));
    assert((raw + x).skip(n) =~= raw.skip(n) + x);
}

/// A step takes nothing away from what comes out, and adds nothing.
proof fn step_keeps(
    before: SsReader,
    after: SsReader,
    now: int,
    s: SsRead,
    key: Seq<u8>,
    x: Seq<u8>,
    start: SsReader,
)
    requires
        on_the_way(before, start),
        did(s, before, after, before.plan(now)),
        !(s is Failed),
    ensures
        on_the_way(after, start),
        before.plain@ + to_come(before, key, x).0 == after.plain@ + to_come(after, key, x).0,
        to_come(before, key, x).1 == to_come(after, key, x).1,
{
    let raw = before.raw@;
    match before.plan(now) {
        Plan::Header(n, p) => {
            front_stays(raw, x, 0, n as int);
        },
        Plan::Padding(n) => {
            front_stays(raw, x, 0, n as int);
        },
        Plan::Chunk(n, data) => {
            front_stays(raw, x, 0, 18);
            front_stays(raw, x, 18, n as int);
            let rest = to_come(after, key, x).0;
            assert(before.plain@ + (data + rest) =~= data + rest);
        },
        _ => {},
    }
}

proof fn move_keeps(
    m: ReadMove,
    before: SsReader,
    after: SsReader,
    key: Seq<u8>,
    x: Seq<u8>,
    start: SsReader,
)
    requires
        on_the_way(before, start),
        moved(m, before, after, key),
    ensures
        on_the_way(after, start),
        before.plain@ + to_come(before, key, bytes_in(m) + x).0 == data_out(m) + (after.plain@
            + to_come(after, key, x).0),
        to_come(before, key, bytes_in(m) + x).1 == to_come(after, key, x).1,
{
    let rest = after.plain@ + to_come(after, key, x).0;
    assert(Seq::<u8>::empty() + rest =~= rest);
    assert(Seq::<u8>::empty() + x =~= x);
    match m {
        ReadMove::Feed(bytes) => {
            assert(before.raw@ + (bytes + x) =~= after.raw@ + x);
        },
        ReadMove::Key(k) => {
            front_stays(before.raw@, x, 0, method_key_len(before.method) as int);
        },
        ReadMove::Step(now, s) => {
            step_keeps(before, after, now, s, key, x, start);
        },
        ReadMove::Take(_, data) => {
            assert(before.plain@ =~= data + after.plain@);
            assert(before.plain@ + to_come(after, key, x).0 =~= data + rest);
        },
    }
}

proof fn reading_so_far(states: Seq<SsReader>, moves: Seq<ReadMove>, key: Seq<u8>, x: Seq<u8>)
    requires
        led(states, moves, key),
        fresh(states[0]),
    ensures
        on_the_way(states.last(), states[0]),
        ({
            let start = states[0];
            let (all, end) = response_data(
                start.method,
                key,
                start.salt_seq(),
                arrived(moves) + x,
            );
            let (rest, e) = to_come(states.last(), key, x);
            all == delivered(moves) + (states.last().plain@ + rest) && end == e
        }),
    decreases moves.len(),
{
    let start = states[0];
    if moves.len() == 0 {
        assert(start.raw@ + x =~= arrived(moves) + x);
        let rest = to_come(start, key, x).0;
        assert(rest =~= delivered(moves) + (start.plain@ + rest));
    } else {
        let k = moves.len() - 1;
        let m = moves.last();
        let early = states.drop_last();
        let y = bytes_in(m) + x;
        assert forall|i: int| 0 <= i < k implies #[trigger] moved(
            moves.drop_last()[i],
            early[i],
            early[i + 1],
            key,
        ) by {
            assert(moved(moves[i], states[i], states[i + 1], key));
        }
        reading_so_far(early, moves.drop_last(), key, y);
        assert(moved(moves[k], states[k], states[k + 1], key));
        move_keeps(m, states[k], states[k + 1], key, x, start);
        assert(arrived(moves.drop_last()) + y =~= arrived(moves) + x);
        let head = delivered(moves.drop_last());
        let rest = states[k + 1].plain@ + to_come(states[k + 1], key, x).0;
        assert(head + (data_out(m) + rest) =~= delivered(moves) + rest);
    }
}

/// However the bytes of a response are cut up on their way, and however much is asked for at a
/// time, what comes out of a fresh reader is what the response says, in order: the salt, the
/// header and the padding never show. When the next step wants more bytes, all that has arrived
/// in full has been handed out. When it fails, other than for the age of the response, then for
/// what goes wrong in the response, and all data before that has been handed out.
pub proof fn reading_keeps_the_data(
    states: Seq<SsReader>,
    moves: Seq<ReadMove>,
    key: Seq<u8>,
    now: int,
)
    requires
        led(states, moves, key),
        fresh(states[0]),
    ensures
        ({
            let start = states[0];
            let last = states.last();
            let (all, end) = response_data(start.method, key, start.salt_seq(), arrived(moves));
            let (rest, e) = to_come(last, key, Seq::empty());
            &&& all == delivered(moves) + (last.plain@ + rest)
            &&& end == e
            &&& last.plan(now) is More ==> all == delivered(moves) && end is None
            &&& last.plan(now) matches Plan::Fail(f, _, _) ==> f == SsError::Timestamp || (all
                == delivered(moves) && end == Some(f))
        }),
{
    let last = states.last();
    reading_so_far(states, moves, key, Seq::empty());
    assert(arrived(moves) + Seq::<u8>::empty() =~= arrived(moves));
    assert(last.raw@ + Seq::<u8>::empty() =~= last.raw@);
    let out = delivered(moves);
    assert(last.plain@.len() == 0 ==> out + (last.plain@ + Seq::<u8>::empty()) =~= out);
}

/// The bytes are chunks that open to the pieces, one to each.
pub open spec fn carries(
    m: Method,
    key: Seq<u8>,
    counter: nat,
    raw: Seq<u8>,
    pieces: Seq<Seq<u8>>,
) -> bool
    decreases pieces.len(),
{
    if pieces.len() == 0 {
        raw.len() == 0
    } else {
        &&& first_chunk(m, key, counter, raw, pieces[0])
        &&& carries(m, key, counter + 2, raw.skip(pieces[0].len() as int + 34), pieces.skip(1))
    }
}

/// One piece after another.
pub open spec fn joined(pieces: Seq<Seq<u8>>) -> Seq<u8>
    decreases pieces.len(),
{
    if pieces.len() == 0 {
        Seq::empty()
    } else {
        pieces[0] + joined(pieces.skip(1))
    }
}

proof fn carried_data(m: Method, key: Seq<u8>, counter: nat, raw: Seq<u8>, pieces: Seq<Seq<u8>>)
    requires
        carries(m, key, counter, raw, pieces),
    ensures
        chunk_data(m, key, counter, raw) == (joined(pieces), None::<SsError>),
    decreases pieces.len(),
{
    if pieces.len() > 0 {
        first_chunk_counts(m, key, counter, raw, pieces[0]);
        carried_data(
            m,
            key,
            counter + 2,
            raw.skip(pieces[0].len() as int + 34),
            pieces.skip(1),
        );
    }
}

/// The bytes are a response to the request with the given salt: a salt; in the 2022 edition a
/// header that answers the request and the padding that it announces; and chunks that open to the
/// pieces.
pub open spec fn is_response(
    m: Method,
    key: Seq<u8>,
    request_salt: Option<Seq<u8>>,
    bytes: Seq<u8>,
    pieces: Seq<Seq<u8>>,
) -> bool {
    let from = method_key_len(m) as int;
    let body = bytes.skip(from);
    &&& bytes.len() >= from
    &&& if method_2022(m) {
        let n = response_len(m) as int;
        &&& body.len() >= n
        &&& ss_opened(m, key, 0, body.subrange(0, n)) matches Some(fixed) && (response_padding(
            fixed,
            method_key_len(m),
            request_salt,
            None,
        ) matches Ok(p) && ({
            let rest = body.skip(n);
            let k = p as int + TAG_LEN;
            &&& rest.len() >= k
            &&& ss_opened(m, key, 1, rest.subrange(0, k)) is Some
            &&& carries(m, key, 2, rest.skip(k), pieces)
        }))
    } else {
        carries(m, key, 0, body, pieces)
    }
}

/// A response comes out as the pieces that were put into it, whatever is asked for at a time and
/// however its bytes are cut up on their way: once all of it has arrived, what was handed out, what
/// is ready and what is still to come make up the pieces, and when the reader wants more, all of
/// them have been handed out.
pub proof fn response_comes_out(
    states: Seq<SsReader>,
    moves: Seq<ReadMove>,
    key: Seq<u8>,
    now: int,
    pieces: Seq<Seq<u8>>,
)
    requires
        led(states, moves, key),
        fresh(states[0]),
        is_response(
            states[0].method,
            key,
            states[0].salt_seq(),
            arrived(moves),
            pieces,
        ),
    ensures
        ({
            let last = states.last();
            let (rest, end) = to_come(last, key, Seq::empty());
            &&& delivered(moves) + (last.plain@ + rest) == joined(pieces)
            &&& end is None
            &&& last.plan(now) is More ==> delivered(moves) == joined(pieces)
            &&& last.plan(now) matches Plan::Fail(f, _, _) ==> f == SsError::Timestamp
        }),
{
    let start = states[0];
    let m = start.method;
    let body = arrived(moves).skip(method_key_len(m) as int);
    reading_keeps_the_data(states, moves, key, now);
    if method_2022(m) {
        let n = response_len(m) as int;
        let fixed = ss_opened(m, key, 0, body.subrange(0, n)).unwrap();
        let p = response_padding(fixed, method_key_len(m), start.salt_seq(), None).unwrap();
        carried_data(m, key, 2, body.skip(n).skip(p as int + TAG_LEN), pieces);
    } else {
        carried_data(m, key, 0, body, pieces);
    }
}

} // verus!
