//! The REALITY handshake of a client, apart from the connection it runs over.
//!
//! The caller sends the hello, reads records and hands them over one by one; each answer says
//! whether to read on or what to send last.

use crate::config::RealityDialConfig;
use crate::crypto::{
    hmac_sha512_of, x25519_public, x25519_public_of, x25519_shared, x25519_shared_of,
};
use crate::encoding::{
    all_hex, base64_decode, base64_standard, base64_url, base64_url_decode, hex_bytes, hex_decode,
    trim, trimmed,
};
use crate::random::random_bytes;
use crate::text::{chars_of, hex_value};
use crate::tls::certificate::{ed25519_parts, verify_reality_certificate, CertError};
use crate::tls::client_hello::{
    build_reality_client_hello, first_too_long, hello_seals, is_hello, protocols_fit,
    reality_client_hello_at, ClientHelloError,
};
use crate::tls::keys::{
    client_ap_secret, client_hs_secret, finished_data, master_secret, server_ap_secret,
    server_hs_secret, suite_hash, suite_number, verify_finished, CipherSuite, HashKind,
};
use crate::tls::record::{
    key_from, nonce_of, opened_record, sealed_record, ApplicationKeys, HandshakeKeys, RecordError,
    RecordKey, TLS_RECORD_ALERT, TLS_RECORD_APPLICATION_DATA, TLS_RECORD_CHANGE_CIPHER_SPEC,
    TLS_RECORD_HANDSHAKE,
};
use crate::tls::server_hello::{
    leaf_certificate, message_len, parse_leaf_certificate, parse_server_hello,
    pop_handshake_message, server_hello, HandshakeMessage, HelloError, ParsedServerHello,
};
use crate::wire::{
    array32, be_bytes, be_bytes_len, be_value, bytes_eq, copy_range, put_bytes, put_len24, read_u24,
};
use vstd::prelude::*;
use vstd::utf8::encode_utf8;

verus! {

pub const HS_NEW_SESSION_TICKET: u8 = 4;

pub const HS_ENCRYPTED_EXTENSIONS: u8 = 8;

pub const HS_CERTIFICATE: u8 = 11;

pub const HS_CERTIFICATE_VERIFY: u8 = 15;

pub const HS_FINISHED: u8 = 20;

/// Why a handshake fails.
#[derive(Clone, Copy, Debug, PartialEq, Eq, Structural)]
pub enum HandshakeError {
    /// A record of another type came instead of a plain handshake record.
    ExpectedHandshake(u8),
    /// The first handshake message is not the ServerHello.
    UnexpectedHandshake,
    /// The ServerHello does not fill its record.
    Fragmented,
    Hello(HelloError),
    /// The server did not send the session identifier back: it does not take this client for
    /// one of its own.
    NoEcho,
    UnsupportedSuite(u16),
    /// A record of another type came instead of an encrypted one.
    ExpectedEncrypted(u8),
    Record(RecordError),
    /// An encrypted record completes no handshake message.
    EmptyRecord,
    /// The server ended the handshake, with level and description.
    Alert(u8, u8),
    TruncatedAlert,
    BadCertificateMessage,
    FinishedMismatch,
    UnexpectedMessage(u8),
    /// EncryptedExtensions or CertificateVerify did not come before Finished.
    Incomplete,
    MissingCertificate,
    Certificate(CertError),
}

/// What a plain record means while the ServerHello is awaited: `None` to read on, or the
/// message.
pub open spec fn plain_step(kind: u8, payload: Seq<u8>, expected: u8) -> Result<
    Option<Seq<u8>>,
    HandshakeError,
> {
    if kind == TLS_RECORD_CHANGE_CIPHER_SPEC {
        Ok(None)
    } else if kind != TLS_RECORD_HANDSHAKE {
        Err(HandshakeError::ExpectedHandshake(kind))
    } else if payload.len() < 4 || payload[0] != expected {
        Err(HandshakeError::UnexpectedHandshake)
    } else if payload.len() != 4 + be_value(payload.subrange(1, 4)) {
        Err(HandshakeError::Fragmented)
    } else {
        Ok(Some(payload))
    }
}

/// Takes a plain record while the ServerHello is awaited: whether it is the message.
pub fn read_plain_handshake(kind: u8, payload: &[u8], expected: u8) -> (res: Result<
    bool,
    HandshakeError,
>)
    ensures
        match (res, plain_step(kind, payload@, expected)) {
            (Ok(found), Ok(msg)) => found == (msg is Some),
            (Err(e), Err(f)) => e == f,
            _ => false,
        },
{
    if kind == TLS_RECORD_CHANGE_CIPHER_SPEC {
        return Ok(false);
    }
    if kind != TLS_RECORD_HANDSHAKE {
        return Err(HandshakeError::ExpectedHandshake(kind));
    }
    if payload.len() < 4 || payload[0] != expected {
        return Err(HandshakeError::UnexpectedHandshake);
    }
    if payload.len() - 4 != read_u24(payload, 1) as usize {
        return Err(HandshakeError::Fragmented);
    }
    Ok(true)
}

// ---- the encrypted part ----

/// What the client knows of the server's messages so far.
pub struct FlightView {
    /// All messages of the handshake, in order.
    pub transcript: Seq<u8>,
    /// Decrypted bytes that do not make up a message yet.
    pub buf: Seq<u8>,
    pub leaf: Option<Seq<u8>>,
    pub extensions: bool,
    pub verify: bool,
}

/// Where taking messages out of the buffer ends.
pub enum Drained {
    /// The buffer is used up.
    More(FlightView),
    /// The server's Finished message is right. The view is that before it.
    Finished(FlightView, Seq<u8>),
    Fail(HandshakeError),
}

/// Takes messages out of the buffer until it is used up or Finished has come.
pub open spec fn drained(v: FlightView, hash: HashKind, server_secret: Seq<u8>) -> Drained
    decreases v.buf.len(),
{
    match message_len(v.buf) {
        None => Drained::More(v),
        Some(n) => {
            let raw = v.buf.take(n as int);
            let body = v.buf.subrange(4, n as int);
            let rest = v.buf.skip(n as int);
            let kind = v.buf[0];
            if rest.len() >= v.buf.len() {
                Drained::More(v)
            } else if kind == HS_ENCRYPTED_EXTENSIONS {
                drained(
                    FlightView {
                        transcript: v.transcript + raw,
                        buf: rest,
                        extensions: true,
                        ..v
                    },
                    hash,
                    server_secret,
                )
            } else if kind == HS_CERTIFICATE {
                match leaf_certificate(body) {
                    None => Drained::Fail(HandshakeError::BadCertificateMessage),
                    Some(cert) => drained(
                        FlightView {
                            transcript: v.transcript + raw,
                            buf: rest,
                            leaf: Some(cert),
                            ..v
                        },
                        hash,
                        server_secret,
                    ),
                }
            } else if kind == HS_CERTIFICATE_VERIFY {
                drained(
                    FlightView { transcript: v.transcript + raw, buf: rest, verify: true, ..v },
                    hash,
                    server_secret,
                )
            } else if kind == HS_FINISHED {
                if body == finished_data(hash, server_secret, v.transcript) {
                    Drained::Finished(FlightView { buf: rest, ..v }, raw)
                } else {
                    Drained::Fail(HandshakeError::FinishedMismatch)
                }
            } else if kind == HS_NEW_SESSION_TICKET {
                drained(FlightView { buf: rest, ..v }, hash, server_secret)
            } else {
                Drained::Fail(HandshakeError::UnexpectedMessage(kind))
            }
        },
    }
}

/// Where the handshake stands after a record.
pub enum Flight {
    /// Read the next record. The number tells how many records of the server's key this one
    /// used up.
    ReadOn(FlightView, nat),
    /// The server is authentic. The sequence is the whole transcript up to its Finished
    /// message.
    Accept(Seq<u8>),
    Fail(HandshakeError),
}

/// Whether what came before Finished is enough to trust the server.
pub open spec fn judged(v: FlightView, finished: Seq<u8>, auth_key: Seq<u8>) -> Flight {
    if !v.extensions || !v.verify {
        Flight::Fail(HandshakeError::Incomplete)
    } else {
        match v.leaf {
            None => Flight::Fail(HandshakeError::MissingCertificate),
            Some(cert) => match ed25519_parts(cert) {
                None => Flight::Fail(HandshakeError::Certificate(CertError::NotEd25519)),
                Some((key, sig)) => if sig == hmac_sha512_of(auth_key, key) {
                    Flight::Accept(v.transcript + finished)
                } else {
                    Flight::Fail(HandshakeError::Certificate(CertError::Mismatch))
                },
            },
        }
    }
}

/// What the client does with an encrypted record.
pub open spec fn flight_step(
    v: FlightView,
    key: RecordKey,
    server_secret: Seq<u8>,
    auth_key: Seq<u8>,
    kind: u8,
    header: Seq<u8>,
    payload: Seq<u8>,
) -> Flight {
    if kind == TLS_RECORD_CHANGE_CIPHER_SPEC {
        Flight::ReadOn(v, 0)
    } else if kind != TLS_RECORD_APPLICATION_DATA {
        Flight::Fail(HandshakeError::ExpectedEncrypted(kind))
    } else {
        match opened_record(
            key.suite,
            key.key@,
            nonce_of(key.iv@, key.seq as nat),
            header,
            payload,
        ) {
            Err(e) => Flight::Fail(HandshakeError::Record(e)),
            Ok((inner, content)) => if inner == TLS_RECORD_HANDSHAKE {
                let full = FlightView { buf: v.buf + content, ..v };
                if message_len(full.buf) is None {
                    Flight::Fail(HandshakeError::EmptyRecord)
                } else {
                    match drained(full, suite_hash(key.suite), server_secret) {
                        Drained::More(w) => Flight::ReadOn(w, 1),
                        Drained::Finished(w, raw) => judged(w, raw, auth_key),
                        Drained::Fail(e) => Flight::Fail(e),
                    }
                }
            } else if inner == TLS_RECORD_ALERT {
                if content.len() >= 2 {
                    Flight::Fail(HandshakeError::Alert(content[0], content[1]))
                } else {
                    Flight::Fail(HandshakeError::TruncatedAlert)
                }
            } else {
                Flight::ReadOn(v, 1)
            },
        }
    }
}

/// The certificate carries the HMAC of its own key under the authentication key.
pub open spec fn authentic(cert: Seq<u8>, auth_key: Seq<u8>) -> bool {
    ed25519_parts(cert) matches Some((key, sig)) && sig == hmac_sha512_of(auth_key, key)
}

/// The messages before Finished and Finished itself show that the server is the right one.
pub open spec fn proven(
    v: FlightView,
    finished: Seq<u8>,
    hash: HashKind,
    server_secret: Seq<u8>,
    auth_key: Seq<u8>,
) -> bool {
    &&& v.extensions
    &&& v.verify
    &&& v.leaf matches Some(cert) && authentic(cert, auth_key)
    &&& finished.len() >= 4
    &&& finished.skip(4) == finished_data(hash, server_secret, v.transcript)
}

/// Messages are only taken to be finished when the Finished message fits all before it.
proof fn finished_fits(v: FlightView, hash: HashKind, server_secret: Seq<u8>)
    ensures
        drained(v, hash, server_secret) matches Drained::Finished(w, raw) ==> raw.len() >= 4
            && raw.skip(4) == finished_data(hash, server_secret, w.transcript),
    decreases v.buf.len(),
{
    if let Some(n) = message_len(v.buf) {
        let raw = v.buf.take(n as int);
        let rest = v.buf.skip(n as int);
        let kind = v.buf[0];
        let next = FlightView { transcript: v.transcript + raw, buf: rest, ..v };
        assert(raw.skip(4) =~= v.buf.subrange(4, n as int));
        if rest.len() < v.buf.len() {
            if kind == HS_ENCRYPTED_EXTENSIONS {
                finished_fits(FlightView { extensions: true, ..next }, hash, server_secret);
            } else if kind == HS_CERTIFICATE {
                if let Some(cert) = leaf_certificate(v.buf.subrange(4, n as int)) {
                    finished_fits(FlightView { leaf: Some(cert), ..next }, hash, server_secret);
                }
            } else if kind == HS_CERTIFICATE_VERIFY {
                finished_fits(FlightView { verify: true, ..next }, hash, server_secret);
            } else if kind == HS_NEW_SESSION_TICKET {
                finished_fits(FlightView { buf: rest, ..v }, hash, server_secret);
            }
        }
    }
}

/// No server is accepted without proof that it knows the authentication key and the secrets of
/// the handshake, and none whose extensions and CertificateVerify message have not come.
pub proof fn accepted_server_is_authentic(
    v: FlightView,
    key: RecordKey,
    server_secret: Seq<u8>,
    auth_key: Seq<u8>,
    kind: u8,
    header: Seq<u8>,
    payload: Seq<u8>,
) -> (shown: (FlightView, Seq<u8>))
    requires
        flight_step(v, key, server_secret, auth_key, kind, header, payload) is Accept,
    ensures
        flight_step(v, key, server_secret, auth_key, kind, header, payload) == Flight::Accept(
            shown.0.transcript + shown.1,
        ),
        proven(shown.0, shown.1, suite_hash(key.suite), server_secret, auth_key),
{
    let hash = suite_hash(key.suite);
    let (_, content) = opened_record(
        key.suite,
        key.key@,
        nonce_of(key.iv@, key.seq as nat),
        header,
        payload,
    ).unwrap();
    let full = FlightView { buf: v.buf + content, ..v };
    finished_fits(full, hash, server_secret);
    match drained(full, hash, server_secret) {
        Drained::Finished(w, raw) => (w, raw),
        _ => (v, Seq::empty()),
    }
}

/// The client's state while it reads the server's encrypted messages.
pub struct ServerFlight {
    pub suite: CipherSuite,
    pub client: RecordKey,
    pub server: RecordKey,
    pub client_secret: Vec<u8>,
    pub server_secret: Vec<u8>,
    pub master_secret: Vec<u8>,
    pub auth_key: Vec<u8>,
    pub transcript: Vec<u8>,
    pub buf: Vec<u8>,
    pub leaf: Option<Vec<u8>>,
    pub extensions: bool,
    pub verify: bool,
}

/// The end of a handshake: the last record to send, and the keys from then on.
pub struct Connected {
    pub record: Vec<u8>,
    pub read_key: RecordKey,
    pub write_key: RecordKey,
}

/// What to do after a record.
pub enum FlightStep {
    ReadOn,
    Done(Connected),
}

/// The client's Finished message.
pub open spec fn client_finished(hash: HashKind, secret: Seq<u8>, transcript: Seq<u8>) -> Seq<u8> {
    let data = finished_data(hash, secret, transcript);
    seq![HS_FINISHED] + be_bytes(data.len(), 3) + data
}

impl ServerFlight {
    pub open spec fn wf(&self) -> bool {
        &&& self.client.wf()
        &&& self.client.suite == self.suite
        &&& self.client.seq == 0
        &&& self.server.wf()
        &&& self.server.suite == self.suite
        &&& message_len(self.buf@) is None
    }

    pub open spec fn view(&self) -> FlightView {
        FlightView {
            transcript: self.transcript@,
            buf: self.buf@,
            leaf: match self.leaf {
                Some(c) => Some(c@),
                None => None,
            },
            extensions: self.extensions,
            verify: self.verify,
        }
    }

    /// The parts that stay as they are throughout.
    pub open spec fn same_keys(&self, other: &ServerFlight) -> bool {
        &&& self.suite == other.suite
        &&& self.client == other.client
        &&& self.server.suite == other.server.suite
        &&& self.server.key@ == other.server.key@
        &&& self.server.iv@ == other.server.iv@
        &&& self.client_secret == other.client_secret
        &&& self.server_secret == other.server_secret
        &&& self.master_secret == other.master_secret
        &&& self.auth_key == other.auth_key
    }

    /// Takes messages out of the buffer; the Finished message is handed back.
    fn drain(&mut self) -> (res: Result<Option<Vec<u8>>, HandshakeError>)
        requires
            old(self).server.suite == old(self).suite,
        ensures
            final(self).same_keys(old(self)),
            final(self).server.seq == old(self).server.seq,
            match (
                res,
                drained(old(self).view(), suite_hash(old(self).suite), old(self).server_secret@),
            ) {
                (Ok(None), Drained::More(v)) => final(self).view() == v && message_len(v.buf)
                    is None,
                (Ok(Some(raw)), Drained::Finished(v, w)) => final(self).view() == v && raw@ == w,
                (Err(e), Drained::Fail(f)) => e == f,
                _ => false,
            },
        decreases old(self).buf@.len(),
    {
        let ghost before = self.view();
        let msg: HandshakeMessage = match pop_handshake_message(&mut self.buf) {
            None => {
                assert(self.view() == before);
                return Ok(None);
            },
            Some(m) => m,
        };
        let kind: u8 = msg.typ;
        if kind == HS_ENCRYPTED_EXTENSIONS {
            put_bytes(&mut self.transcript, &msg.raw);
            self.extensions = true;
        } else if kind == HS_CERTIFICATE {
            match parse_leaf_certificate(&msg.body) {
                Ok(c) => {
                    self.leaf = Some(c);
                },
                Err(_) => {
                    return Err(HandshakeError::BadCertificateMessage);
                },
            }
            put_bytes(&mut self.transcript, &msg.raw);
        } else if kind == HS_CERTIFICATE_VERIFY {
            put_bytes(&mut self.transcript, &msg.raw);
            self.verify = true;
        } else if kind == HS_FINISHED {
            if verify_finished(
                self.suite.hash_kind(),
                &self.server_secret,
                &self.transcript,
                &msg.body,
            ) {
                return Ok(Some(msg.raw));
            }
            return Err(HandshakeError::FinishedMismatch);
        } else if kind != HS_NEW_SESSION_TICKET {
            return Err(HandshakeError::UnexpectedMessage(kind));
        }
        self.drain()
    }

    /// Decides on the server once its Finished message is right, and makes the client's own.
    fn finish(&mut self, finished: &[u8]) -> (res: Result<Connected, HandshakeError>)
        requires
            old(self).client.wf(),
            old(self).client.suite == old(self).suite,
            old(self).client.seq == 0,
        ensures
            match (res, judged(old(self).view(), finished@, old(self).auth_key@)) {
                (Ok(c), Flight::Accept(t)) => connected(c, *old(self), t),
                (Err(e), Flight::Fail(f)) => e == f,
                _ => false,
            },
    {
        if !self.extensions || !self.verify {
            return Err(HandshakeError::Incomplete);
        }
        match &self.leaf {
            None => {
                return Err(HandshakeError::MissingCertificate);
            },
            Some(cert) => match verify_reality_certificate(cert, &self.auth_key) {
                Ok(()) => {},
                Err(e) => {
                    return Err(HandshakeError::Certificate(e));
                },
            },
        }
        put_bytes(&mut self.transcript, finished);
        let app: ApplicationKeys = ApplicationKeys::derive(
            self.suite,
            &self.master_secret,
            &self.transcript,
        );
        let data: Vec<u8> = self.suite.hash_kind().finished_verify_data(
            &self.client_secret,
            &self.transcript,
        );
        let mut message: Vec<u8> = vec![HS_FINISHED];
        put_len24(&mut message, data.len());
        put_bytes(&mut message, &data);
        assert(message@ =~= client_finished(
            suite_hash(self.suite),
            self.client_secret@,
            self.transcript@,
        ));
        proof {
            be_bytes_len(data@.len(), 3);
        }
        match self.client.seal(TLS_RECORD_HANDSHAKE, &message) {
            Ok(record) => Ok(Connected { record, read_key: app.server, write_key: app.client }),
            Err(e) => Err(HandshakeError::Record(e)),
        }
    }

    /// Takes the next record.
    pub fn on_record(&mut self, kind: u8, header: &[u8], payload: &[u8]) -> (res: Result<
        FlightStep,
        HandshakeError,
    >)
        requires
            old(self).wf(),
            old(self).server.seq < u64::MAX,
        ensures
            match (
                res,
                flight_step(
                    old(self).view(),
                    old(self).server,
                    old(self).server_secret@,
                    old(self).auth_key@,
                    kind,
                    header@,
                    payload@,
                ),
            ) {
                (Ok(FlightStep::ReadOn), Flight::ReadOn(v, used)) => final(self).wf() && final(self).same_keys(old(self)) && final(self).view() == v && final(self).server.seq
                    == old(self).server.seq + used,
                (Ok(FlightStep::Done(c)), Flight::Accept(t)) => connected(c, *old(self), t),
                (Err(e), Flight::Fail(f)) => e == f,
                _ => false,
            },
    {
        if kind == TLS_RECORD_CHANGE_CIPHER_SPEC {
            return Ok(FlightStep::ReadOn);
        }
        if kind != TLS_RECORD_APPLICATION_DATA {
            return Err(HandshakeError::ExpectedEncrypted(kind));
        }
        let (inner, content): (u8, Vec<u8>) = match self.server.open(header, payload) {
            Ok(x) => x,
            Err(e) => {
                return Err(HandshakeError::Record(e));
            },
        };
        if inner == TLS_RECORD_HANDSHAKE {
            put_bytes(&mut self.buf, &content);
            let ghost full = self.view();
            if self.buf.len() < 4 || self.buf.len() - 4 < read_u24(&self.buf, 1) as usize {
                return Err(HandshakeError::EmptyRecord);
            }
            match self.drain() {
                Err(e) => Err(e),
                Ok(None) => Ok(FlightStep::ReadOn),
                Ok(Some(finished)) => match self.finish(&finished) {
                    Ok(c) => Ok(FlightStep::Done(c)),
                    Err(e) => Err(e),
                },
            }
        } else if inner == TLS_RECORD_ALERT {
            if content.len() >= 2 {
                Err(HandshakeError::Alert(content[0], content[1]))
            } else {
                Err(HandshakeError::TruncatedAlert)
            }
        } else {
            Ok(FlightStep::ReadOn)
        }
    }
}

/// `c` is what a handshake with the keys of `f` ends in, `t` being its transcript.
pub open spec fn connected(c: Connected, f: ServerFlight, t: Seq<u8>) -> bool {
    let hash = suite_hash(f.suite);
    &&& c.record@ == sealed_record(
        f.suite,
        f.client.key@,
        nonce_of(f.client.iv@, 0),
        TLS_RECORD_HANDSHAKE,
        client_finished(hash, f.client_secret@, t),
    )
    &&& key_from(c.read_key, f.suite, server_ap_secret(hash, f.master_secret@, t))
    &&& key_from(c.write_key, f.suite, client_ap_secret(hash, f.master_secret@, t))
}

// ---- the hellos ----

/// What the client keeps of its own hello.
pub struct SentHello {
    /// The secret of the key share.
    pub secret: Vec<u8>,
    /// The hello message.
    pub hello: Vec<u8>,
    /// The key that the server's certificate is checked with.
    pub auth_key: Vec<u8>,
}

/// `f` is where a handshake stands after the two hellos.
pub open spec fn after_hellos(
    f: ServerFlight,
    sent: SentHello,
    msg: Seq<u8>,
    suite: nat,
    share: Seq<u8>,
) -> bool {
    let hash = suite_hash(f.suite);
    let shared = x25519_shared_of(sent.secret@, share);
    let transcript = sent.hello@ + msg;
    &&& f.wf()
    &&& suite_number(f.suite) == suite
    &&& f.server.seq == 0
    &&& f.client_secret@ == client_hs_secret(hash, shared, transcript)
    &&& f.server_secret@ == server_hs_secret(hash, shared, transcript)
    &&& f.master_secret@ == master_secret(hash, shared)
    &&& key_from(f.client, f.suite, f.client_secret@)
    &&& key_from(f.server, f.suite, f.server_secret@)
    &&& f.auth_key@ == sent.auth_key@
    &&& f.view() == (FlightView {
        transcript,
        buf: Seq::empty(),
        leaf: None,
        extensions: false,
        verify: false,
    })
}

impl SentHello {
    /// Takes the ServerHello. The server must have sent the session identifier back.
    pub fn on_server_hello(&self, msg: &[u8]) -> (res: Result<ServerFlight, HandshakeError>)
        requires
            self.secret@.len() == 32,
            self.hello@.len() >= 71,
        ensures
            match server_hello(msg@) {
                Err(e) => res matches Err(f) && f == HandshakeError::Hello(e),
                Ok((suite, session, share)) => if session != self.hello@.subrange(39, 71) {
                    res matches Err(f) && f == HandshakeError::NoEcho
                } else if forall|s: CipherSuite| #[trigger] suite_number(s) != suite {
                    res matches Err(f) && f == HandshakeError::UnsupportedSuite(suite as u16)
                } else {
                    res matches Ok(f) && after_hellos(f, *self, msg@, suite, share)
                },
            },
    {
        let parsed: ParsedServerHello = match parse_server_hello(msg) {
            Ok(p) => p,
            Err(e) => {
                return Err(HandshakeError::Hello(e));
            },
        };
        if !bytes_eq(&parsed.session_id, &self.hello[39..71]) {
            return Err(HandshakeError::NoEcho);
        }
        let shared: Vec<u8> = x25519_shared(&self.secret, &parsed.key_share);
        let mut transcript: Vec<u8> = Vec::new();
        put_bytes(&mut transcript, &self.hello);
        put_bytes(&mut transcript, msg);
        assert(transcript@ =~= self.hello@ + msg@);
        let suite: CipherSuite = match CipherSuite::try_from(parsed.cipher_suite) {
            Ok(s) => s,
            Err(e) => {
                return Err(HandshakeError::UnsupportedSuite(e.0));
            },
        };
        assert(suite_number(suite) == parsed.cipher_suite);
        let keys: HandshakeKeys = HandshakeKeys::derive(suite, &shared, &transcript);
        let buf: Vec<u8> = Vec::new();
        assert(buf@ =~= Seq::empty());
        let flight = ServerFlight {
            suite,
            client: keys.client,
            server: keys.server,
            client_secret: keys.client_secret,
            server_secret: keys.server_secret,
            master_secret: keys.master_secret,
            auth_key: copy_range(&self.auth_key, 0, self.auth_key.len()),
            transcript,
            buf,
            leaf: None,
            extensions: false,
            verify: false,
        };
        assert(flight.auth_key@ =~= self.auth_key@);
        Ok(flight)
    }
}

// ---- settings ----

/// What is wrong with the settings.
#[derive(Clone, Copy, Debug, PartialEq, Eq, Structural)]
pub enum RealityConfigError {
    /// The public key is neither hexadecimal nor base64.
    PublicKeyEncoding,
    /// The public key has this many bytes.
    PublicKeyLength(usize),
    /// The short identifier has an odd number of characters, or more than 16.
    ShortIdLength,
    /// The short identifier is not hexadecimal.
    ShortIdEncoding,
    Hello(ClientHelloError),
}

/// The bytes of a public key in hexadecimal, or in base64 of either alphabet.
pub open spec fn key_bytes(s: Seq<char>) -> Option<Seq<u8>> {
    let t = trimmed(s);
    if t.len() == 64 && all_hex(t) {
        Some(hex_bytes(t))
    } else if base64_url(t) is Some {
        base64_url(t)
    } else {
        base64_standard(t)
    }
}

fn is_hex_text(s: &str) -> (yes: bool)
    ensures
        yes == all_hex(s@),
{
    let chars: Vec<char> = chars_of(s);
    let mut i: usize = 0;
    while i < chars.len()
        invariant
            i <= chars@.len(),
            chars@ == s@,
            forall|j: int| 0 <= j < i ==> hex_value(#[trigger] s@[j]) is Some,
        decreases chars@.len() - i,
    {
        let c: char = chars[i];
        if !(('0' <= c && c <= '9') || ('a' <= c && c <= 'f') || ('A' <= c && c <= 'F')) {
            assert(hex_value(s@[i as int]) is None);
            return false;
        }
        i += 1;
    }
    true
}

/// Reads a public key: 64 hexadecimal digits, or base64.
pub fn decode_x25519_pubkey(s: &str) -> (res: Result<[u8; 32], RealityConfigError>)
    ensures
        match key_bytes(s@) {
            None => res matches Err(e) && e == RealityConfigError::PublicKeyEncoding,
            Some(b) => if b.len() == 32 {
                res matches Ok(k) && k@ == b
            } else {
                res matches Err(RealityConfigError::PublicKeyLength(n)) && n == b.len()
            },
        },
{
    let t: String = trim(s);
    let decoded: Option<Vec<u8>> = if t.as_str().unicode_len() == 64 && is_hex_text(&t) {
        hex_decode(&t)
    } else {
        match base64_url_decode(&t) {
            Some(b) => Some(b),
            None => base64_decode(&t),
        }
    };
    match decoded {
        None => Err(RealityConfigError::PublicKeyEncoding),
        Some(bytes) => {
            if bytes.len() != 32 {
                return Err(RealityConfigError::PublicKeyLength(bytes.len()));
            }
            Ok(array32(&bytes))
        },
    }
}

/// Reads a short identifier: up to eight bytes in hexadecimal.
pub fn decode_short_id(s: &str) -> (res: Result<Vec<u8>, RealityConfigError>)
    ensures
        match res {
            Ok(b) => if s@.len() == 0 {
                b@.len() == 0
            } else {
                encode_utf8(s@).len() % 2 == 0 && encode_utf8(s@).len() <= 16 && s@.len() % 2 == 0
                    && all_hex(s@) && b@ == hex_bytes(s@)
            },
            Err(RealityConfigError::ShortIdLength) => s@.len() > 0 && (encode_utf8(s@).len() % 2
                != 0 || encode_utf8(s@).len() > 16),
            Err(RealityConfigError::ShortIdEncoding) => s@.len() > 0 && encode_utf8(s@).len() % 2
                == 0 && encode_utf8(s@).len() <= 16 && !(s@.len() % 2 == 0 && all_hex(s@)),
            Err(_) => false,
        },
{
    if s.unicode_len() == 0 {
        return Ok(Vec::new());
    }
    let n: usize = s.as_bytes().len();
    if n % 2 != 0 || n > 16 {
        return Err(RealityConfigError::ShortIdLength);
    }
    match hex_decode(s) {
        Some(b) => Ok(b),
        None => Err(RealityConfigError::ShortIdEncoding),
    }
}

/// A short identifier filled up with zeros to eight bytes; longer ones are cut.
pub open spec fn padded_id(id: Seq<u8>) -> Seq<u8> {
    Seq::new(
        8,
        |i: int|
            if i < id.len() {
                id[i]
            } else {
                0u8
            },
    )
}

fn pad_id(id: &[u8]) -> (out: Vec<u8>)
    ensures
        out@ == padded_id(id@),
{
    let mut out: Vec<u8> = Vec::new();
    while out.len() < 8
        invariant
            out@.len() <= 8,
            forall|i: int| 0 <= i < out@.len() ==> out@[i] == padded_id(id@)[i],
        decreases 8 - out@.len(),
    {
        let i: usize = out.len();
        out.push(
            if i < id.len() {
                id[i]
            } else {
                0
            },
        );
    }
    assert(out@ =~= padded_id(id@));
    out
}

/// The name that the hello asks for: the configured one, or the server's own.
pub open spec fn dial_name(config: RealityDialConfig) -> Seq<char> {
    match config.server_name {
        Some(n) => n@,
        None => config.server@,
    }
}

/// What is wrong with the keys in settings, if anything.
pub open spec fn dial_fault(config: RealityDialConfig) -> Option<RealityConfigError> {
    let id = encode_utf8(config.short_id@);
    match key_bytes(config.public_key@) {
        None => Some(RealityConfigError::PublicKeyEncoding),
        Some(b) => if b.len() != 32 {
            Some(RealityConfigError::PublicKeyLength(b.len() as usize))
        } else if config.short_id@.len() == 0 {
            None
        } else if id.len() % 2 != 0 || id.len() > 16 {
            Some(RealityConfigError::ShortIdLength)
        } else if config.short_id@.len() % 2 == 0 && all_hex(config.short_id@) {
            None
        } else {
            Some(RealityConfigError::ShortIdEncoding)
        },
    }
}

/// The short identifier of the settings, with zeros behind it.
pub open spec fn dial_id(config: RealityDialConfig) -> Seq<u8> {
    padded_id(
        if config.short_id@.len() == 0 {
            Seq::empty()
        } else {
            hex_bytes(config.short_id@)
        },
    )
}

/// `sent` is the hello that is made from the settings at the given time.
pub open spec fn is_dial_hello(
    sent: SentHello,
    config: RealityDialConfig,
    secret: Seq<u8>,
    random: Seq<u8>,
    unix: u32,
) -> bool {
    &&& sent.secret@ == secret
    &&& key_bytes(config.public_key@) matches Some(server_key) && is_hello(
        sent.hello@,
        sent.auth_key@,
        encode_utf8(dial_name(config)),
        config.alpn@,
        random,
        x25519_public_of(secret),
        x25519_shared_of(secret, server_key),
        dial_id(config),
        unix,
    )
}

/// `sent` is the hello that is made from the settings at some time.
pub open spec fn is_timely_hello(
    sent: SentHello,
    config: RealityDialConfig,
    secret: Seq<u8>,
    random: Seq<u8>,
) -> bool {
    exists|unix: u32| #[trigger] is_dial_hello(sent, config, secret, random, unix)
}

/// The hello of the settings can be authenticated.
pub open spec fn dial_seals(config: RealityDialConfig, secret: Seq<u8>, random: Seq<u8>) -> bool {
    hello_seals(
        encode_utf8(dial_name(config)),
        config.alpn@,
        random,
        x25519_public_of(secret),
    )
}

/// No hello can be made from the settings, for the reason `e`. That there is no time can be seen
/// from none of them.
pub open spec fn no_hello(
    e: ClientHelloError,
    config: RealityDialConfig,
    secret: Seq<u8>,
    random: Seq<u8>,
) -> bool {
    match e {
        ClientHelloError::AlpnTooLong(i) => first_too_long(config.alpn@, i as int),
        ClientHelloError::Seal => protocols_fit(config.alpn@) && !dial_seals(
            config,
            secret,
            random,
        ),
        ClientHelloError::Clock => protocols_fit(config.alpn@),
    }
}

/// The server's key and the short identifier of the settings.
fn dial_keys(config: &RealityDialConfig) -> (res: Result<([u8; 32], Vec<u8>), RealityConfigError>)
    ensures
        match dial_fault(*config) {
            Some(e) => res matches Err(f) && f == e,
            None => res matches Ok((key, id)) && key_bytes(config.public_key@) == Some(key@)
                && id@ == dial_id(*config) && id@.len() == 8,
        },
{
    let server_key: [u8; 32] = match decode_x25519_pubkey(&config.public_key) {
        Ok(k) => k,
        Err(e) => {
            return Err(e);
        },
    };
    let id: Vec<u8> = match decode_short_id(&config.short_id) {
        Ok(b) => b,
        Err(e) => {
            return Err(e);
        },
    };
    proof {
        if config.short_id@.len() == 0 {
            assert(id@ =~= Seq::empty());
        }
    }
    Ok((server_key, pad_id(&id)))
}

fn name_to_dial(config: &RealityDialConfig) -> (name: &str)
    ensures
        name@ == dial_name(*config),
{
    match &config.server_name {
        Some(n) => n.as_str(),
        None => config.server.as_str(),
    }
}

/// Makes the hello that is sent at the given time, from the settings, the secret of the key share
/// and the random value.
pub fn reality_hello_at(config: &RealityDialConfig, secret: &[u8], random: &[u8], unix: u32) -> (res:
    Result<SentHello, RealityConfigError>)
    requires
        secret@.len() == 32,
        random@.len() == 32,
    ensures
        match (dial_fault(*config), res) {
            (Some(e), Err(f)) => f == e,
            (None, Ok(sent)) => protocols_fit(config.alpn@) && dial_seals(*config, secret@, random@)
                && is_dial_hello(sent, *config, secret@, random@, unix),
            (None, Err(RealityConfigError::Hello(e))) => no_hello(e, *config, secret@, random@)
                && !(e is Clock),
            _ => false,
        },
{
    let (server_key, id): ([u8; 32], Vec<u8>) = match dial_keys(config) {
        Ok(k) => k,
        Err(e) => {
            return Err(e);
        },
    };
    let name: &str = name_to_dial(config);
    let public: Vec<u8> = x25519_public(secret);
    let auth_key: Vec<u8> = x25519_shared(secret, &server_key);
    match reality_client_hello_at(name, &config.alpn, random, &public, &auth_key, &id, unix) {
        Ok((hello, key)) => {
            let sent = SentHello { secret: copy_range(secret, 0, 32), hello, auth_key: key };
            assert(sent.secret@ =~= secret@);
            Ok(sent)
        },
        Err(e) => Err(RealityConfigError::Hello(e)),
    }
}

/// Makes the hello that is sent now.
pub fn reality_hello(config: &RealityDialConfig, secret: &[u8], random: &[u8]) -> (res: Result<
    SentHello,
    RealityConfigError,
>)
    requires
        secret@.len() == 32,
        random@.len() == 32,
    ensures
        match (dial_fault(*config), res) {
            (Some(e), Err(f)) => f == e,
            (None, Ok(sent)) => protocols_fit(config.alpn@) && dial_seals(*config, secret@, random@)
                && is_timely_hello(sent, *config, secret@, random@),
            (None, Err(RealityConfigError::Hello(e))) => no_hello(e, *config, secret@, random@),
            _ => false,
        },
{
    let (server_key, id): ([u8; 32], Vec<u8>) = match dial_keys(config) {
        Ok(k) => k,
        Err(e) => {
            return Err(e);
        },
    };
    let name: &str = name_to_dial(config);
    let public: Vec<u8> = x25519_public(secret);
    let auth_key: Vec<u8> = x25519_shared(secret, &server_key);
    match build_reality_client_hello(name, &config.alpn, random, &public, &auth_key, &id) {
        Ok((hello, key)) => {
            let ghost unix = choose|unix: u32| #[trigger]
                is_hello(
                    hello@,
                    key@,
                    encode_utf8(name@),
                    config.alpn@,
                    random@,
                    public@,
                    auth_key@,
                    id@,
                    unix,
                );
            let sent = SentHello { secret: copy_range(secret, 0, 32), hello, auth_key: key };
            assert(sent.secret@ =~= secret@);
            assert(is_dial_hello(sent, *config, secret@, random@, unix));
            Ok(sent)
        },
        Err(e) => Err(RealityConfigError::Hello(e)),
    }
}

/// A fresh secret for the key share and a fresh random value.
pub fn hello_secrets() -> (fresh: (Vec<u8>, Vec<u8>))
    ensures
        fresh.0@.len() == 32,
        fresh.1@.len() == 32,
{
    (random_bytes(32), random_bytes(32))
}

} // verus!
