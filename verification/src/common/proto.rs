//! Frames of VLESS and Hysteria2.

use crate::net::{ip_octets, put_ip, target_text, IpAddr, SocketAddr, Target, TargetText};
use crate::text::{chars_of, hex_value, utf8_text};
use crate::wire::{
    be_bytes, be_bytes_len, be_round_trip, be_value, byte_range, copy_range, le_bytes,
    le_round_trip, le_value, put_bytes, put_le, put_len16, put_u16, read_le, read_u128, read_u16,
    read_u32,
};
use vstd::prelude::*;
use vstd::utf8::{
    decode_utf8, encode_utf8, encode_utf8_decode_utf8, encode_utf8_valid_utf8, valid_utf8,
};

verus! {

/// Why a frame cannot be read.
#[derive(Clone, Copy, Debug, PartialEq, Eq, Structural)]
pub enum ProtoError {
    InvalidUuid,
    TooShort,
    UnsupportedVersion(u8),
    Truncated,
    MissingAddrType,
    UnknownAddrType(u8),
    /// A name is no UTF-8.
    InvalidName,
}

pub const VLESS_CMD_TCP: u8 = 1;

pub const VLESS_CMD_UDP: u8 = 2;

pub const HY2_ATYP_IPV4: u8 = 0;

pub const HY2_ATYP_IPV6: u8 = 1;

pub const HY2_ATYP_DOMAIN: u8 = 2;

// ---- VLESS ----

/// The values of the hexadecimal digits of `s`; all else is left out.
pub open spec fn hex_digits(s: Seq<char>) -> Seq<nat>
    decreases s.len(),
{
    if s.len() == 0 {
        Seq::empty()
    } else {
        match hex_value(s.last()) {
            Some(d) => hex_digits(s.drop_last()).push(d),
            None => hex_digits(s.drop_last()),
        }
    }
}

fn read_hex_digits(s: &str) -> (out: Vec<u8>)
    ensures
        out@.len() == hex_digits(s@).len(),
        forall|i: int|
            0 <= i < out@.len() ==> (#[trigger] out@[i]) as nat == hex_digits(s@)[i] && out@[i] < 16,
{
    let chars: Vec<char> = chars_of(s);
    let mut out: Vec<u8> = Vec::new();
    let mut i: usize = 0;
    while i < chars.len()
        invariant
            i <= chars@.len(),
            out@.len() == hex_digits(chars@.take(i as int)).len(),
            forall|j: int|
                0 <= j < out@.len() ==> (#[trigger] out@[j]) as nat == hex_digits(
                    chars@.take(i as int),
                )[j] && out@[j] < 16,
        decreases chars@.len() - i,
    {
        let c: char = chars[i];
        assert(chars@.take(i + 1).drop_last() =~= chars@.take(i as int));
        assert(chars@.take(i + 1).last() == c);
        if '0' <= c && c <= '9' {
            out.push((c as u32 - 48) as u8);
        } else if 'a' <= c && c <= 'f' {
            out.push((c as u32 - 87) as u8);
        } else if 'A' <= c && c <= 'F' {
            out.push((c as u32 - 55) as u8);
        }
        i += 1;
    }
    assert(chars@.take(i as int) =~= s@);
    out
}

/// Reads a UUID: thirty-two hexadecimal digits, whatever stands between them.
pub fn vless_parse_uuid(s: &str) -> (res: Result<[u8; 16], ProtoError>)
    ensures
        match res {
            Ok(uuid) => hex_digits(s@).len() == 32 && forall|i: int|
                0 <= i < 16 ==> (#[trigger] uuid@[i]) as nat == hex_digits(s@)[2 * i] * 16
                    + hex_digits(s@)[2 * i + 1],
            Err(e) => e == ProtoError::InvalidUuid && hex_digits(s@).len() != 32,
        },
{
    let digits: Vec<u8> = read_hex_digits(s);
    if digits.len() != 32 {
        return Err(ProtoError::InvalidUuid);
    }
    let mut uuid: [u8; 16] = [0; 16];
    let mut i: usize = 0;
    while i < 16
        invariant
            i <= 16,
            digits@.len() == 32,
            hex_digits(s@).len() == 32,
            forall|j: int|
                0 <= j < 32 ==> (#[trigger] digits@[j]) as nat == hex_digits(s@)[j] && digits@[j]
                    < 16,
            forall|j: int|
                0 <= j < i ==> (#[trigger] uuid@[j]) as nat == hex_digits(s@)[2 * j] * 16
                    + hex_digits(s@)[2 * j + 1],
        decreases 16 - i,
    {
        assert(digits@[2 * i] < 16 && digits@[2 * i + 1] < 16);
        uuid[i] = digits[2 * i] * 16 + digits[2 * i + 1];
        i += 1;
    }
    Ok(uuid)
}

/// The address of a target in a request, the port before it. The length of a name is kept in one
/// byte.
pub open spec fn vless_addr(target: Target) -> Seq<u8> {
    match target {
        Target::Domain(host, port) => be_bytes(port as nat, 2) + seq![
            2u8,
            (encode_utf8(host@).len() % 256) as u8,
        ] + encode_utf8(host@),
        Target::Socket(addr) => be_bytes(addr.port as nat, 2) + (match addr.ip {
            IpAddr::V4(_) => seq![1u8],
            IpAddr::V6(_) => seq![3u8],
        }) + ip_octets(addr.ip),
    }
}

/// A request: the version, the user, no extras, a command and an address.
pub open spec fn vless_request(uuid: Seq<u8>, command: u8, target: Target) -> Seq<u8> {
    seq![0u8] + uuid + seq![0u8, command] + vless_addr(target)
}

fn build_request(uuid: &[u8; 16], command: u8, target: &Target) -> (buf: Vec<u8>)
    ensures
        buf@ == vless_request(uuid@, command, *target),
{
    let mut buf: Vec<u8> = vec![0u8];
    put_bytes(&mut buf, uuid);
    buf.push(0);
    buf.push(command);
    match target {
        Target::Domain(host, port) => {
            let name: &[u8] = host.as_str().as_bytes();
            put_u16(&mut buf, *port);
            buf.push(2);
            buf.push((name.len() % 256) as u8);
            put_bytes(&mut buf, name);
        },
        Target::Socket(addr) => {
            put_u16(&mut buf, addr.port);
            buf.push(
                match addr.ip {
                    IpAddr::V4(_) => 1,
                    IpAddr::V6(_) => 3,
                },
            );
            put_ip(&mut buf, &addr.ip);
        },
    }
    assert(buf@ =~= vless_request(uuid@, command, *target));
    buf
}

/// The request for a TCP connection.
pub fn vless_build_request(uuid: &[u8; 16], target: &Target) -> (buf: Vec<u8>)
    ensures
        buf@ == vless_request(uuid@, VLESS_CMD_TCP, *target),
{
    build_request(uuid, VLESS_CMD_TCP, target)
}

/// The request for datagrams.
pub fn vless_build_udp_request(uuid: &[u8; 16], target: &Target) -> (buf: Vec<u8>)
    ensures
        buf@ == vless_request(uuid@, VLESS_CMD_UDP, *target),
{
    build_request(uuid, VLESS_CMD_UDP, target)
}

/// The length of the response at the start of `s`.
pub open spec fn vless_response_len(s: Seq<u8>) -> Result<nat, ProtoError> {
    if s.len() < 2 {
        Err(ProtoError::TooShort)
    } else if s[0] != 0 {
        Err(ProtoError::UnsupportedVersion(s[0]))
    } else if s.len() < 2 + s[1] {
        Err(ProtoError::Truncated)
    } else {
        Ok(2 + s[1] as nat)
    }
}

/// Measures the response: what follows it is data.
pub fn vless_parse_response(buf: &[u8]) -> (res: Result<usize, ProtoError>)
    ensures
        match (res, vless_response_len(buf@)) {
            (Ok(a), Ok(b)) => a as nat == b && a <= buf@.len(),
            (Err(e), Err(f)) => e == f,
            _ => false,
        },
{
    if buf.len() < 2 {
        return Err(ProtoError::TooShort);
    }
    if buf[0] != 0 {
        return Err(ProtoError::UnsupportedVersion(buf[0]));
    }
    let addon_len: usize = buf[1] as usize;
    if buf.len() - 2 < addon_len {
        return Err(ProtoError::Truncated);
    }
    Ok(2 + addon_len)
}

/// A datagram with its length in front, of which two bytes are kept.
pub open spec fn vless_udp_frame(payload: Seq<u8>) -> Seq<u8> {
    be_bytes(payload.len(), 2) + payload
}

/// Puts the length of a datagram in front of it.
pub fn vless_encode_udp_frame(payload: &[u8]) -> (buf: Vec<u8>)
    ensures
        buf@ == vless_udp_frame(payload@),
{
    let mut buf: Vec<u8> = Vec::new();
    put_len16(&mut buf, payload.len());
    put_bytes(&mut buf, payload);
    assert(buf@ =~= vless_udp_frame(payload@));
    buf
}

/// Reads the length in front of a datagram: how long the length itself is, and the datagram.
pub fn vless_decode_udp_frame_len(buf: &[u8]) -> (res: Result<(usize, usize), ProtoError>)
    ensures
        match res {
            Ok((head, len)) => buf@.len() >= 2 && head == 2 && len as nat == be_value(buf@.take(2)),
            Err(e) => e == ProtoError::TooShort && buf@.len() < 2,
        },
{
    if buf.len() < 2 {
        return Err(ProtoError::TooShort);
    }
    assert(buf@.subrange(0, 2) =~= buf@.take(2));
    Ok((2, read_u16(buf, 0) as usize))
}

/// The length in front of a datagram leads to the datagram, whatever follows it.
pub proof fn vless_frame_round_trip(payload: Seq<u8>, rest: Seq<u8>)
    requires
        payload.len() <= 65535,
    ensures
        be_value((vless_udp_frame(payload) + rest).take(2)) == payload.len(),
        (vless_udp_frame(payload) + rest).subrange(2, 2 + payload.len() as int) == payload,
{
    let s = vless_udp_frame(payload) + rest;
    be_bytes_len(payload.len(), 2);
    assert(s.take(2) =~= be_bytes(payload.len(), 2));
    reveal_with_fuel(byte_range, 3);
    be_round_trip(payload.len(), 2);
    assert(s.subrange(2, 2 + payload.len() as int) =~= payload);
}

// ---- Hysteria2 ----

/// The address of a target, the port behind it.
pub open spec fn hy2_addr(target: Target) -> Seq<u8> {
    match target {
        Target::Domain(host, port) => seq![
            HY2_ATYP_DOMAIN,
            (encode_utf8(host@).len() % 256) as u8,
        ] + encode_utf8(host@) + be_bytes(port as nat, 2),
        Target::Socket(addr) => (match addr.ip {
            IpAddr::V4(_) => seq![HY2_ATYP_IPV4],
            IpAddr::V6(_) => seq![HY2_ATYP_IPV6],
        }) + ip_octets(addr.ip) + be_bytes(addr.port as nat, 2),
    }
}

/// Appends the address of a target.
pub fn hy2_write_addr(buf: &mut Vec<u8>, target: &Target)
    ensures
        final(buf)@ == old(buf)@ + hy2_addr(*target),
{
    match target {
        Target::Domain(host, port) => {
            let name: &[u8] = host.as_str().as_bytes();
            buf.push(HY2_ATYP_DOMAIN);
            buf.push((name.len() % 256) as u8);
            put_bytes(buf, name);
            put_u16(buf, *port);
        },
        Target::Socket(addr) => {
            buf.push(
                match addr.ip {
                    IpAddr::V4(_) => HY2_ATYP_IPV4,
                    IpAddr::V6(_) => HY2_ATYP_IPV6,
                },
            );
            put_ip(buf, &addr.ip);
            put_u16(buf, addr.port);
        },
    }
    assert(buf@ =~= old(buf)@ + hy2_addr(*target));
}

/// The request for a TCP connection, without padding.
pub fn hy2_build_tcp_request(target: &Target) -> (buf: Vec<u8>)
    ensures
        buf@ == hy2_addr(*target) + seq![0u8, 0u8],
{
    let mut buf: Vec<u8> = Vec::new();
    hy2_write_addr(&mut buf, target);
    buf.push(0);
    buf.push(0);
    assert(buf@ =~= hy2_addr(*target) + seq![0u8, 0u8]);
    buf
}

/// A datagram in one piece.
pub open spec fn hy2_datagram(data: Seq<u8>, target: Target, session_id: u32) -> Seq<u8> {
    le_bytes(session_id as nat, 4) + seq![0u8, 0u8, 0u8, 1u8] + hy2_addr(target) + data
}

/// Makes a datagram in one piece.
pub fn hy2_build_udp_datagram(data: &[u8], target: &Target, session_id: u32) -> (buf: Vec<u8>)
    ensures
        buf@ == hy2_datagram(data@, *target, session_id),
{
    let mut buf: Vec<u8> = Vec::new();
    put_le(&mut buf, session_id as u64, 4);
    buf.push(0);
    buf.push(0);
    buf.push(0);
    buf.push(1);
    hy2_write_addr(&mut buf, target);
    put_bytes(&mut buf, data);
    assert(buf@ =~= hy2_datagram(data@, *target, session_id));
    buf
}

/// The address at `at`, and where it ends.
pub open spec fn hy2_addr_at(s: Seq<u8>, at: int) -> Result<(TargetText, int), ProtoError> {
    if s.len() <= at {
        Err(ProtoError::MissingAddrType)
    } else if s[at] == HY2_ATYP_IPV4 {
        if s.len() < at + 7 {
            Err(ProtoError::Truncated)
        } else {
            Ok(
                (
                    TargetText::Socket(
                        SocketAddr {
                            ip: IpAddr::V4(be_value(s.subrange(at + 1, at + 5)) as u32),
                            port: be_value(s.subrange(at + 5, at + 7)) as u16,
                        },
                    ),
                    at + 7,
                ),
            )
        }
    } else if s[at] == HY2_ATYP_IPV6 {
        if s.len() < at + 19 {
            Err(ProtoError::Truncated)
        } else {
            Ok(
                (
                    TargetText::Socket(
                        SocketAddr {
                            ip: IpAddr::V6(be_value(s.subrange(at + 1, at + 17)) as u128),
                            port: be_value(s.subrange(at + 17, at + 19)) as u16,
                        },
                    ),
                    at + 19,
                ),
            )
        }
    } else if s[at] == HY2_ATYP_DOMAIN {
        if s.len() < at + 2 || s.len() < at + 4 + s[at + 1] {
            Err(ProtoError::Truncated)
        } else if !valid_utf8(s.subrange(at + 2, at + 2 + s[at + 1])) {
            Err(ProtoError::InvalidName)
        } else {
            let end = at + 2 + s[at + 1];
            Ok(
                (
                    TargetText::Domain(
                        decode_utf8(s.subrange(at + 2, end)),
                        be_value(s.subrange(end, end + 2)) as u16,
                    ),
                    end + 2,
                ),
            )
        }
    } else {
        Err(ProtoError::UnknownAddrType(s[at]))
    }
}

/// Reads the address at `at`.
fn read_addr(buf: &[u8], at: usize) -> (res: Result<(Target, usize), ProtoError>)
    ensures
        match (res, hy2_addr_at(buf@, at as int)) {
            (Ok((t, a)), Ok((u, b))) => target_text(t) == u && a == b && a <= buf@.len(),
            (Err(e), Err(f)) => e == f,
            _ => false,
        },
{
    if buf.len() <= at {
        return Err(ProtoError::MissingAddrType);
    }
    let left: usize = buf.len() - at;
    let kind: u8 = buf[at];
    if kind == HY2_ATYP_IPV4 {
        if left < 7 {
            return Err(ProtoError::Truncated);
        }
        let ip: IpAddr = IpAddr::V4(read_u32(buf, at + 1));
        let port: u16 = read_u16(buf, at + 5);
        Ok((Target::Socket(SocketAddr { ip, port }), at + 7))
    } else if kind == HY2_ATYP_IPV6 {
        if left < 19 {
            return Err(ProtoError::Truncated);
        }
        let ip: IpAddr = IpAddr::V6(read_u128(buf, at + 1));
        let port: u16 = read_u16(buf, at + 17);
        Ok((Target::Socket(SocketAddr { ip, port }), at + 19))
    } else if kind == HY2_ATYP_DOMAIN {
        if left < 2 {
            return Err(ProtoError::Truncated);
        }
        let len: usize = buf[at + 1] as usize;
        if left < len + 4 {
            return Err(ProtoError::Truncated);
        }
        let end: usize = at + 2 + len;
        let bytes: Vec<u8> = copy_range(buf, at + 2, end);
        match utf8_text(&bytes) {
            None => Err(ProtoError::InvalidName),
            Some(host) => {
                let port: u16 = read_u16(buf, end);
                Ok((Target::Domain(host, port), end + 2))
            },
        }
    } else {
        Err(ProtoError::UnknownAddrType(kind))
    }
}

/// What a datagram holds: the session, the data and where it came from.
pub open spec fn hy2_datagram_parts(s: Seq<u8>) -> Result<(nat, Seq<u8>, TargetText), ProtoError> {
    if s.len() < 8 {
        Err(ProtoError::TooShort)
    } else {
        match hy2_addr_at(s, 8) {
            Err(e) => Err(e),
            Ok((target, end)) => Ok((le_value(s.subrange(0, 4)), s.skip(end), target)),
        }
    }
}

/// Takes a datagram apart.
pub fn hy2_parse_udp_datagram(buf: &[u8]) -> (res: Result<(u32, Vec<u8>, Target), ProtoError>)
    ensures
        match (res, hy2_datagram_parts(buf@)) {
            (Ok((sid, data, target)), Ok((n, d, t))) => sid as nat == n && data@ == d && target_text(
                target,
            ) == t,
            (Err(e), Err(f)) => e == f,
            _ => false,
        },
{
    if buf.len() < 8 {
        return Err(ProtoError::TooShort);
    }
    let session_id: u64 = read_le(buf, 0, 4);
    assert(byte_range(4) == 4294967296) by {
        reveal_with_fuel(byte_range, 5);
    }
    match read_addr(buf, 8) {
        Err(e) => Err(e),
        Ok((target, end)) => {
            let data: Vec<u8> = copy_range(buf, end, buf.len());
            assert(data@ =~= buf@.skip(end as int));
            Ok((session_id as u32, data, target))
        },
    }
}

/// Whether the address of a target can be read back.
pub open spec fn hy2_readable(target: Target) -> bool {
    match target {
        Target::Socket(_) => true,
        Target::Domain(host, _) => encode_utf8(host@).len() <= 255,
    }
}

/// What was put into a datagram comes out of it.
pub proof fn hy2_datagram_round_trip(data: Seq<u8>, target: Target, session_id: u32)
    requires
        hy2_readable(target),
    ensures
        hy2_datagram_parts(hy2_datagram(data, target, session_id)) == Ok::<
            (nat, Seq<u8>, TargetText),
            ProtoError,
        >((session_id as nat, data, target_text(target))),
{
    let s = hy2_datagram(data, target, session_id);
    let a = hy2_addr(target);
    reveal_with_fuel(byte_range, 17);
    le_round_trip(session_id as nat, 4);
    assert(s.subrange(0, 4) =~= le_bytes(session_id as nat, 4));
    let head = le_bytes(session_id as nat, 4) + seq![0u8, 0u8, 0u8, 1u8];
    assert(s =~= head + a + data);
    addr_read_back(head, target, data);
    assert(s.skip(8 + a.len() as int) =~= data);
}

proof fn addr_read_back(head: Seq<u8>, target: Target, rest: Seq<u8>)
    requires
        hy2_readable(target),
    ensures
        hy2_addr_at(head + hy2_addr(target) + rest, head.len() as int) == Ok::<
            (TargetText, int),
            ProtoError,
        >((target_text(target), head.len() as int + hy2_addr(target).len() as int)),
{
    let a = hy2_addr(target);
    let s = head + a + rest;
    let at = head.len() as int;
    reveal_with_fuel(byte_range, 17);
    match target {
        Target::Socket(addr) => {
            be_bytes_len(addr.port as nat, 2);
            be_round_trip(addr.port as nat, 2);
            match addr.ip {
                IpAddr::V4(v) => {
                    be_bytes_len(v as nat, 4);
                    be_round_trip(v as nat, 4);
                    assert(s.subrange(at + 1, at + 5) =~= be_bytes(v as nat, 4));
                    assert(s.subrange(at + 5, at + 7) =~= be_bytes(addr.port as nat, 2));
                },
                IpAddr::V6(v) => {
                    be_bytes_len(v as nat, 16);
                    be_round_trip(v as nat, 16);
                    assert(s.subrange(at + 1, at + 17) =~= be_bytes(v as nat, 16));
                    assert(s.subrange(at + 17, at + 19) =~= be_bytes(addr.port as nat, 2));
                },
            }
        },
        Target::Domain(host, port) => {
            let name = encode_utf8(host@);
            be_bytes_len(port as nat, 2);
            be_round_trip(port as nat, 2);
            encode_utf8_valid_utf8(host@);
            encode_utf8_decode_utf8(host@);
            let end = at + 2 + name.len();
            assert(s[at + 1] == name.len());
            assert(s.subrange(at + 2, end) =~= name);
            assert(s.subrange(end, end + 2) =~= be_bytes(port as nat, 2));
        },
    }
}

} // verus!
