//! VLESS requests and answers, and the datagrams with one address each.

use crate::common::proto::{
    hex_digits, hy2_addr, hy2_datagram, hy2_datagram_parts, hy2_readable, vless_addr,
    vless_request, vless_response_len, vless_udp_frame, ProtoError, VLESS_CMD_TCP, VLESS_CMD_UDP,
};
use crate::laws::bytes::{four, low_byte_first, network_order, two};
use crate::laws::sessions::low_four;
use crate::net::{IpAddr, Target, TargetText};
use crate::text::hex_value;
use crate::wire::be_bytes;
use vstd::prelude::*;
use vstd::utf8::encode_utf8;

verus! {

/// The digits of an identifier are those of its signs that are hexadecimal digits, in their order.
pub proof fn digits_are_picked(s: Seq<char>, c: char)
    ensures
        hex_digits(Seq::empty()).len() == 0,
        hex_value(c) matches Some(d) ==> hex_digits(s.push(c)) == hex_digits(s).push(d),
        hex_value(c) is None ==> hex_digits(s.push(c)) == hex_digits(s),
{
    assert(s.push(c).drop_last() =~= s);
}

/// A request is the version 0, the identifier, no additions, the command, the port and the address:
/// 1 and four bytes, 3 and sixteen bytes, or 2 and a name behind its length.
pub proof fn vless_request_is_read(uuid: Seq<u8>, command: u8, target: Target)
    requires
        uuid.len() == 16,
    ensures
        ({
            let s = vless_request(uuid, command, target);
            &&& s[0] == 0
            &&& s.subrange(1, 17) == uuid
            &&& s[17] == 0
            &&& s[18] == command
            &&& s.skip(19) == vless_addr(target)
        }),
        target matches Target::Socket(addr) ==> (addr.ip matches IpAddr::V4(v) ==> vless_addr(
            target,
        ) == two(addr.port as nat) + seq![1u8] + four(v as nat)),
        target matches Target::Socket(addr) ==> (addr.ip matches IpAddr::V6(v) ==> vless_addr(
            target,
        ) == two(addr.port as nat) + seq![3u8] + be_bytes(v as nat, 16)),
        target matches Target::Domain(host, port) ==> (encode_utf8(host@).len() <= 255
            ==> vless_addr(target) == two(port as nat) + seq![
            2u8,
            encode_utf8(host@).len() as u8,
        ] + encode_utf8(host@)),
        VLESS_CMD_TCP == 1,
        VLESS_CMD_UDP == 2,
{
    let s = vless_request(uuid, command, target);
    let a = vless_addr(target);
    assert(s =~= seq![0u8] + uuid + seq![0u8, command] + a);
    assert(s.subrange(1, 17) =~= uuid);
    assert(s.skip(19) =~= a);
    match target {
        Target::Socket(addr) => {
            network_order(addr.port as nat);
            if let IpAddr::V4(v) = addr.ip {
                network_order(v as nat);
            }
        },
        Target::Domain(_, port) => {
            network_order(port as nat);
        },
    }
}

/// An answer is the version 0 and additions behind their length; data follows them.
pub proof fn vless_answers_are_read(more: Seq<u8>, data: Seq<u8>, version: u8)
    requires
        more.len() <= 255,
    ensures
        vless_response_len(seq![0u8, more.len() as u8] + more + data) == Ok::<nat, ProtoError>(
            2 + more.len(),
        ),
        version != 0 ==> vless_response_len(seq![version, more.len() as u8] + more + data) == Err::<
            nat,
            ProtoError,
        >(ProtoError::UnsupportedVersion(version)),
        more.len() > 0 ==> vless_response_len(seq![0u8, more.len() as u8] + more.skip(1)) == Err::<
            nat,
            ProtoError,
        >(ProtoError::Truncated),
        data.len() < 2 ==> vless_response_len(data) == Err::<nat, ProtoError>(ProtoError::TooShort),
        vless_udp_frame(data) == two(data.len()) + data,
{
    network_order(data.len());
    assert((seq![0u8, more.len() as u8] + more + data)[1] == more.len());
    assert((seq![version, more.len() as u8] + more + data)[0] == version);
}

/// A datagram is the number of its session, the low byte first, four bytes that say that it is whole,
/// the address and the data. An address is 0 and four bytes, 1 and sixteen, or 2 and a name behind
/// its length, with the port behind it.
pub proof fn addressed_datagrams(data: Seq<u8>, target: Target, session: u32)
    ensures
        hy2_datagram(data, target, session) == low_four(session as nat) + seq![0u8, 0, 0, 1]
            + hy2_addr(target) + data,
        target matches Target::Socket(addr) ==> (addr.ip matches IpAddr::V4(v) ==> hy2_addr(target)
            == seq![0u8] + four(v as nat) + two(addr.port as nat)),
        target matches Target::Socket(addr) ==> (addr.ip matches IpAddr::V6(v) ==> hy2_addr(target)
            == seq![1u8] + be_bytes(v as nat, 16) + two(addr.port as nat)),
        target matches Target::Domain(host, port) ==> (encode_utf8(host@).len() <= 255 ==> hy2_addr(
            target,
        ) == seq![2u8, encode_utf8(host@).len() as u8] + encode_utf8(host@) + two(port as nat)),
        hy2_readable(target) <==> (target matches Target::Domain(host, _) ==> encode_utf8(
            host@,
        ).len() <= 255),
{
    low_byte_first(session as nat, Seq::empty());
    match target {
        Target::Socket(addr) => {
            network_order(addr.port as nat);
            if let IpAddr::V4(v) = addr.ip {
                network_order(v as nat);
            }
        },
        Target::Domain(_, port) => {
            network_order(port as nat);
        },
    }
}

/// A datagram that cannot be read says why: fewer than eight bytes, no kind of address, one that is
/// not known, or one that is cut off.
pub proof fn broken_datagrams(s: Seq<u8>)
    ensures
        s.len() < 8 ==> hy2_datagram_parts(s) == Err::<(nat, Seq<u8>, TargetText), ProtoError>(
            ProtoError::TooShort,
        ),
        s.len() == 8 ==> hy2_datagram_parts(s) == Err::<(nat, Seq<u8>, TargetText), ProtoError>(
            ProtoError::MissingAddrType,
        ),
        s.len() > 8 && s[8] > 2 ==> hy2_datagram_parts(s) == Err::<
            (nat, Seq<u8>, TargetText),
            ProtoError,
        >(ProtoError::UnknownAddrType(s[8])),
        8 < s.len() && s.len() < 15 && s[8] == 0 ==> hy2_datagram_parts(s) == Err::<
            (nat, Seq<u8>, TargetText),
            ProtoError,
        >(ProtoError::Truncated),
        8 < s.len() && s.len() < 27 && s[8] == 1 ==> hy2_datagram_parts(s) == Err::<
            (nat, Seq<u8>, TargetText),
            ProtoError,
        >(ProtoError::Truncated),
{
}

} // verus!
