//! The server's first handshake messages: ServerHello and Certificate.

use crate::tls::parse::{bytes_at, number_at, take, take_u16, take_u24, take_u8, Truncated};
use crate::wire::{be_value, bytes_eq, copy_range, read_u24};
use vstd::prelude::*;

verus! {

pub const HS_CLIENT_HELLO: u8 = 1;

pub const HS_SERVER_HELLO: u8 = 2;

pub const GROUP_X25519: u16 = 0x001d;

/// Why a ServerHello is refused.
#[derive(Clone, Copy, Debug, PartialEq, Eq, Structural)]
pub enum HelloError {
    Invalid,
    /// The length does not match what is there.
    Length,
    LegacyVersion,
    HelloRetryRequest,
    Truncated,
    Compression,
    NotTls13,
    MissingKeyShare,
}

/// What the client needs of a ServerHello.
pub struct ParsedServerHello {
    pub cipher_suite: u16,
    pub session_id: Vec<u8>,
    pub key_share: Vec<u8>,
}

/// The random value that marks a HelloRetryRequest (RFC 8446, section 4.1.3).
pub open spec fn retry_random() -> Seq<u8> {
    seq![
        0xcfu8, 0x21, 0xad, 0x74, 0xe5, 0x9a, 0x61, 0x11, 0xbe, 0x1d, 0x8c, 0x02, 0x1e, 0x65, 0xb8,
        0x91, 0xc2, 0xa2, 0x11, 0x16, 0x7a, 0xbb, 0x8c, 0x5e, 0x07, 0x9e, 0x09, 0xe2, 0xc8, 0xa8,
        0x33, 0x9c,
    ]
}

/// The key share that an extension carries: `None` where it is cut short, and within that
/// `None` where it is of another group.
pub open spec fn share_of(data: Seq<u8>) -> Option<Option<Seq<u8>>> {
    match (number_at(data, 0, 2), number_at(data, 2, 2)) {
        (Some(group), Some(len)) => match bytes_at(data, 4, len) {
            Some(b) => if group == GROUP_X25519 && b.len() == 32 {
                Some(Some(b))
            } else {
                Some(None)
            },
            None => None,
        },
        _ => None,
    }
}

/// The key share and whether TLS 1.3 was chosen, after the extensions from `pos` on; the last
/// extension of a kind counts.
pub open spec fn scan_extensions(
    exts: Seq<u8>,
    pos: nat,
    share: Option<Seq<u8>>,
    tls13: bool,
) -> Option<(Option<Seq<u8>>, bool)>
    decreases exts.len() - pos,
{
    if pos >= exts.len() {
        Some((share, tls13))
    } else {
        match (number_at(exts, pos, 2), number_at(exts, pos + 2, 2)) {
            (Some(kind), Some(len)) => match bytes_at(exts, pos + 4, len) {
                Some(data) => if kind == 43 {
                    scan_extensions(exts, pos + 4 + len, share, data == seq![3u8, 4u8])
                } else if kind == 51 {
                    match share_of(data) {
                        Some(Some(k)) => scan_extensions(exts, pos + 4 + len, Some(k), tls13),
                        Some(None) => scan_extensions(exts, pos + 4 + len, share, tls13),
                        None => None,
                    }
                } else {
                    scan_extensions(exts, pos + 4 + len, share, tls13)
                },
                None => None,
            },
            _ => None,
        }
    }
}

/// What a ServerHello says: the cipher suite, the echoed session and the key share.
pub open spec fn server_hello(raw: Seq<u8>) -> Result<(nat, Seq<u8>, Seq<u8>), HelloError> {
    if raw.len() < 42 || raw[0] != HS_SERVER_HELLO {
        Err(HelloError::Invalid)
    } else if raw.len() != 4 + be_value(raw.subrange(1, 4)) {
        Err(HelloError::Length)
    } else {
        let body = raw.skip(4);
        if body.take(2) != seq![3u8, 3u8] {
            Err(HelloError::LegacyVersion)
        } else if body.subrange(2, 34) == retry_random() {
            Err(HelloError::HelloRetryRequest)
        } else {
            hello_fields(body)
        }
    }
}

/// The fields of a ServerHello behind its random value.
pub open spec fn hello_fields(body: Seq<u8>) -> Result<(nat, Seq<u8>, Seq<u8>), HelloError> {
    match number_at(body, 34, 1) {
        None => Err(HelloError::Truncated),
        Some(n) => match (
            bytes_at(body, 35, n),
            number_at(body, 35 + n, 2),
            number_at(body, 37 + n, 1),
        ) {
            (Some(session), Some(cipher), Some(compression)) => if compression != 0 {
                Err(HelloError::Compression)
            } else {
                match number_at(body, 38 + n, 2) {
                    None => Err(HelloError::Truncated),
                    Some(m) => match bytes_at(body, 40 + n, m) {
                        None => Err(HelloError::Truncated),
                        Some(exts) => match scan_extensions(exts, 0, None, false) {
                            None => Err(HelloError::Truncated),
                            Some((_, false)) => Err(HelloError::NotTls13),
                            Some((None, true)) => Err(HelloError::MissingKeyShare),
                            Some((Some(k), true)) => Ok((cipher, session, k)),
                        },
                    },
                }
            },
            _ => Err(HelloError::Truncated),
        },
    }
}

fn read_share(data: &[u8]) -> (res: Result<Option<Vec<u8>>, Truncated>)
    ensures
        match (res, share_of(data@)) {
            (Ok(Some(k)), Some(Some(l))) => k@ == l && l.len() == 32,
            (Ok(None), Some(None)) => true,
            (Err(_), None) => true,
            _ => false,
        },
{
    let mut p: usize = 0;
    let group: u16 = take_u16(data, &mut p)?;
    let len: u16 = take_u16(data, &mut p)?;
    let bytes: &[u8] = take(data, &mut p, len as usize)?;
    if group == GROUP_X25519 && bytes.len() == 32 {
        Ok(Some(copy_range(bytes, 0, 32)))
    } else {
        Ok(None)
    }
}

fn read_extensions(exts: &[u8]) -> (res: Result<(Option<Vec<u8>>, bool), Truncated>)
    ensures
        match (res, scan_extensions(exts@, 0, None, false)) {
            (Ok((Some(k), t)), Some((Some(l), u))) => k@ == l && l.len() == 32 && t == u,
            (Ok((None, t)), Some((None, u))) => t == u,
            (Err(_), None) => true,
            _ => false,
        },
{
    let mut key_share: Option<Vec<u8>> = None;
    let mut tls13: bool = false;
    let mut pos: usize = 0;
    let ghost mut share: Option<Seq<u8>> = None;
    while pos < exts.len()
        invariant
            pos <= exts@.len(),
            scan_extensions(exts@, 0, None, false) == scan_extensions(
                exts@,
                pos as nat,
                share,
                tls13,
            ),
            match (key_share, share) {
                (Some(k), Some(l)) => k@ == l && l.len() == 32,
                (None, None) => true,
                _ => false,
            },
        decreases exts@.len() - pos,
    {
        let typ: u16 = match take_u16(exts, &mut pos) {
            Ok(v) => v,
            Err(e) => {
                return Err(e);
            },
        };
        let len: u16 = match take_u16(exts, &mut pos) {
            Ok(v) => v,
            Err(e) => {
                return Err(e);
            },
        };
        let data: &[u8] = match take(exts, &mut pos, len as usize) {
            Ok(v) => v,
            Err(e) => {
                return Err(e);
            },
        };
        if typ == 43 {
            let want: [u8; 2] = [3, 4];
            assert(want@ =~= seq![3u8, 4u8]);
            tls13 = bytes_eq(data, &want);
        } else if typ == 51 {
            match read_share(data) {
                Err(e) => {
                    return Err(e);
                },
                Ok(Some(k)) => {
                    proof {
                        share = Some(k@);
                    }
                    key_share = Some(k);
                },
                Ok(None) => {},
            }
        }
    }
    Ok((key_share, tls13))
}

fn retry_random_bytes() -> (r: Vec<u8>)
    ensures
        r@ == retry_random(),
{
    let r: Vec<u8> = vec![
        0xcfu8, 0x21, 0xad, 0x74, 0xe5, 0x9a, 0x61, 0x11, 0xbe, 0x1d, 0x8c, 0x02, 0x1e, 0x65, 0xb8,
        0x91, 0xc2, 0xa2, 0x11, 0x16, 0x7a, 0xbb, 0x8c, 0x5e, 0x07, 0x9e, 0x09, 0xe2, 0xc8, 0xa8,
        0x33, 0x9c,
    ];
    assert(r@ =~= retry_random());
    r
}

fn read_fields(body: &[u8]) -> (res: Result<ParsedServerHello, HelloError>)
    ensures
        match (res, hello_fields(body@)) {
            (Ok(h), Ok((cipher, session, k))) => h.cipher_suite as nat == cipher && h.session_id@
                == session && h.key_share@ == k && k.len() == 32,
            (Err(e), Err(f)) => e == f,
            _ => false,
        },
{
    let mut pos: usize = 34;
    let n: u8 = match take_u8(body, &mut pos) {
        Ok(v) => v,
        Err(_) => {
            return Err(HelloError::Truncated);
        },
    };
    let session: &[u8] = match take(body, &mut pos, n as usize) {
        Ok(v) => v,
        Err(_) => {
            return Err(HelloError::Truncated);
        },
    };
    let cipher_suite: u16 = match take_u16(body, &mut pos) {
        Ok(v) => v,
        Err(_) => {
            return Err(HelloError::Truncated);
        },
    };
    let compression: u8 = match take_u8(body, &mut pos) {
        Ok(v) => v,
        Err(_) => {
            return Err(HelloError::Truncated);
        },
    };
    if compression != 0 {
        return Err(HelloError::Compression);
    }
    let m: u16 = match take_u16(body, &mut pos) {
        Ok(v) => v,
        Err(_) => {
            return Err(HelloError::Truncated);
        },
    };
    let exts: &[u8] = match take(body, &mut pos, m as usize) {
        Ok(v) => v,
        Err(_) => {
            return Err(HelloError::Truncated);
        },
    };
    match read_extensions(exts) {
        Err(_) => Err(HelloError::Truncated),
        Ok((share, tls13)) => {
            if !tls13 {
                return Err(HelloError::NotTls13);
            }
            match share {
                None => Err(HelloError::MissingKeyShare),
                Some(key_share) => {
                    let session_id: Vec<u8> = copy_range(session, 0, session.len());
                    assert(session_id@ =~= session@);
                    Ok(ParsedServerHello { cipher_suite, session_id, key_share })
                },
            }
        },
    }
}

/// Reads a ServerHello message.
pub fn parse_server_hello(raw: &[u8]) -> (res: Result<ParsedServerHello, HelloError>)
    ensures
        match (res, server_hello(raw@)) {
            (Ok(h), Ok((cipher, session, k))) => h.cipher_suite as nat == cipher && h.session_id@
                == session && h.key_share@ == k && k.len() == 32,
            (Err(e), Err(f)) => e == f,
            _ => false,
        },
{
    if raw.len() < 42 || raw[0] != HS_SERVER_HELLO {
        return Err(HelloError::Invalid);
    }
    let len: usize = read_u24(raw, 1) as usize;
    if raw.len() - 4 != len {
        return Err(HelloError::Length);
    }
    let body: &[u8] = &raw[4..raw.len()];
    assert(body@ =~= raw@.skip(4));
    let version: [u8; 2] = [3, 3];
    assert(version@ =~= seq![3u8, 3u8]);
    assert(body@.subrange(0, 2) =~= body@.take(2));
    if !bytes_eq(&body[0..2], &version) {
        return Err(HelloError::LegacyVersion);
    }
    if bytes_eq(&body[2..34], &retry_random_bytes()) {
        return Err(HelloError::HelloRetryRequest);
    }
    read_fields(body)
}

// ---- handshake messages ----

/// A handshake message.
pub struct HandshakeMessage {
    pub typ: u8,
    pub body: Vec<u8>,
    pub raw: Vec<u8>,
}

/// The length of the message at the start of `buf`, header included, if all of it is there.
pub open spec fn message_len(buf: Seq<u8>) -> Option<nat> {
    if buf.len() < 4 || buf.len() < 4 + be_value(buf.subrange(1, 4)) {
        None
    } else {
        Some(4 + be_value(buf.subrange(1, 4)))
    }
}

/// Takes the first message out of the buffer, if all of it is there.
pub fn pop_handshake_message(buf: &mut Vec<u8>) -> (msg: Option<HandshakeMessage>)
    ensures
        match (msg, message_len(old(buf)@)) {
            (Some(m), Some(n)) => m.raw@ == old(buf)@.take(n as int) && m.typ == old(buf)@[0]
                && m.body@ == old(buf)@.subrange(4, n as int) && final(buf)@ == old(buf)@.skip(
                n as int,
            ) && 4 <= n <= old(buf)@.len(),
            (None, None) => final(buf)@ == old(buf)@,
            _ => false,
        },
{
    if buf.len() < 4 {
        return None;
    }
    let len: usize = read_u24(buf, 1) as usize;
    if buf.len() - 4 < len {
        return None;
    }
    let n: usize = 4 + len;
    let typ: u8 = buf[0];
    let raw: Vec<u8> = copy_range(buf, 0, n);
    let body: Vec<u8> = copy_range(buf, 4, n);
    let rest: Vec<u8> = copy_range(buf, n, buf.len());
    assert(raw@ =~= buf@.take(n as int));
    assert(rest@ =~= buf@.skip(n as int));
    *buf = rest;
    Some(HandshakeMessage { typ, body, raw })
}

/// The first certificate of a Certificate message.
pub open spec fn leaf_certificate(body: Seq<u8>) -> Option<Seq<u8>> {
    match number_at(body, 0, 1) {
        None => None,
        Some(n) => match (bytes_at(body, 1, n), number_at(body, 1 + n, 3)) {
            (Some(_), Some(m)) => match bytes_at(body, 4 + n, m) {
                None => None,
                Some(list) => match number_at(list, 0, 3) {
                    None => None,
                    Some(k) => bytes_at(list, 3, k),
                },
            },
            _ => None,
        },
    }
}

/// Reads the first certificate of a Certificate message.
pub fn parse_leaf_certificate(body: &[u8]) -> (res: Result<Vec<u8>, Truncated>)
    ensures
        match (res, leaf_certificate(body@)) {
            (Ok(c), Some(d)) => c@ == d,
            (Err(_), None) => true,
            _ => false,
        },
{
    let mut pos: usize = 0;
    let n: u8 = take_u8(body, &mut pos)?;
    take(body, &mut pos, n as usize)?;
    let m: usize = take_u24(body, &mut pos)?;
    let list: &[u8] = take(body, &mut pos, m)?;
    let mut list_pos: usize = 0;
    let k: usize = take_u24(list, &mut list_pos)?;
    let cert: &[u8] = take(list, &mut list_pos, k)?;
    let out: Vec<u8> = copy_range(cert, 0, cert.len());
    assert(out@ =~= cert@);
    Ok(out)
}

} // verus!
