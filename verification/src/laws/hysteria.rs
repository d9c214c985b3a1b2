//! What a Hysteria2 server reads, and what its answers grant.

use crate::fragment::{
    chunk_count, chunk_size, frag_header, udp_fragment, udp_header, FragHeader,
    MAX_DATAGRAM_PAYLOAD,
};
use crate::hy2::{
    agreed_rate, auth_headers, auth_outcome, auth_step, h3_frame, h3_progress, header_value,
    is_padding_char, padding_char, params_for, rate_window, server_rate, tcp_progress,
    tcp_request_bytes, udp_granted, varint_step, AuthError, AuthStep, H3Progress, TcpProgress,
    FRAME_TYPE_TCP_REQUEST, H3_FRAME_DATA, H3_FRAME_HEADERS, H3_FRAME_SETTINGS,
};
use crate::laws::bytes::{four, network_order, network_order_of_eight, network_value, two};
use crate::laws::words::{case_does_not_count, numbers_are_digits, same_word};
use crate::qpack::{
    field_at, fields_from, int_bytes, literal_block, literal_bytes, static_entry, string_at,
    tail_bytes, Field,
};
use crate::text::{digits_value, parsed_number};
use crate::varint::{varint_at, varint_bytes, varint_round_trip, varint_width};
use crate::wire::{be_bytes, be_bytes_mod, byte_range};
use vstd::arithmetic::power2::{lemma2_to64, pow2};
use vstd::prelude::*;

verus! {

// ---- numbers on the wire ----

/// The two high bits of the first byte tell how many bytes a number has, 1, 2, 4 or 8; the other
/// bits are the number in network order.
pub proof fn varints_are_read(v: u64, first: u8)
    ensures
        v < 64 ==> varint_bytes(v) == seq![v as u8],
        64 <= v < 16384 ==> varint_bytes(v) == seq![(64 + v / 256) as u8, (v % 256) as u8],
        16384 <= v < 0x4000_0000 ==> varint_bytes(v) == seq![
            (128 + v / 0x100_0000) as u8,
            (v / 0x1_0000 % 256) as u8,
            (v / 256 % 256) as u8,
            (v % 256) as u8,
        ],
        0x4000_0000 <= v < 0x4000_0000_0000_0000 ==> varint_bytes(v).len() == 8 && varint_bytes(
            v,
        ).skip(4) == four(v as nat) && varint_bytes(v)[0] == 192 + v / 0x100_0000_0000_0000,
        varint_width(first) == if first / 64 == 0 {
            1nat
        } else if first / 64 == 1 {
            2
        } else if first / 64 == 2 {
            4
        } else {
            8
        },
{
    if v < 64 {
        network_order(v as nat);
        assert(varint_bytes(v) =~= seq![v as u8]);
    } else if v < 16384 {
        network_order((v + 0x4000) as nat);
        assert(varint_bytes(v) =~= seq![(64 + v / 256) as u8, (v % 256) as u8]);
    } else if v < 0x4000_0000 {
        varint_of_four(v);
    } else if v < 0x4000_0000_0000_0000 {
        varint_of_eight(v);
    }
}

proof fn varint_of_four(v: u64)
    requires
        16384 <= v < 0x4000_0000,
    ensures
        varint_bytes(v) == seq![
            (128 + v / 0x100_0000) as u8,
            (v / 0x1_0000 % 256) as u8,
            (v / 256 % 256) as u8,
            (v % 256) as u8,
        ],
{
    let w = (v + 0x8000_0000) as nat;
    network_order(w);
    assert(w / 0x100_0000 == 128 + v / 0x100_0000);
    assert(w / 0x1_0000 == 0x8000 + v / 0x1_0000);
    assert(w / 256 == 0x80_0000 + v / 256);
    assert(w % 256 == v % 256);
    assert(varint_bytes(v) =~= seq![
        (128 + v / 0x100_0000) as u8,
        (v / 0x1_0000 % 256) as u8,
        (v / 256 % 256) as u8,
        (v % 256) as u8,
    ]);
}

proof fn varint_of_eight(v: u64)
    requires
        0x4000_0000 <= v < 0x4000_0000_0000_0000,
    ensures
        varint_bytes(v).len() == 8,
        varint_bytes(v).skip(4) == four(v as nat),
        varint_bytes(v)[0] == 192 + v / 0x100_0000_0000_0000,
{
    let w = (v + 0xc000_0000_0000_0000) as nat;
    assert(varint_bytes(v) == be_bytes(w, 8)) by {
        assert(v % 0x4000_0000_0000_0000 == v);
    }
    low_half(w, v as nat);
    high_byte(v);
    network_order_of_eight(w);
    assert(varint_bytes(v).skip(4) =~= four(w));
    assert(varint_bytes(v)[0] == four(w / 0x1_0000_0000)[0]);
}

proof fn low_half(w: nat, v: nat)
    requires
        w == v + 0xc000_0000_0000_0000,
    ensures
        four(w) == four(v),
{
    reveal_with_fuel(byte_range, 5);
    assert(byte_range(4) == 0x1_0000_0000);
    be_bytes_mod(w, 4);
    be_bytes_mod(v, 4);
    assert(w % 0x1_0000_0000 == v % 0x1_0000_0000);
    network_order(w);
    network_order(v);
}

proof fn high_byte(v: u64)
    requires
        v < 0x4000_0000_0000_0000,
    ensures
        four(((v + 0xc000_0000_0000_0000) as nat) / 0x1_0000_0000)[0] == 192 + v
            / 0x100_0000_0000_0000,
{
    let h = (v + 0xc000_0000_0000_0000) as nat / 0x1_0000_0000;
    let q = v as nat / 0x1_0000_0000;
    assert(h == 0xc000_0000 + q);
    assert(h / 0x100_0000 == 192 + q / 0x100_0000);
    assert(q / 0x100_0000 == v as nat / 0x100_0000_0000_0000);
}

/// A frame of HTTP/3 is its type, its length and its payload. The types are 0 for data, 1 for
/// headers and 4 for settings, and a frame of more than a mebibyte is refused.
pub proof fn frames_are_read(kind: u64, payload: Seq<u8>, s: Seq<u8>)
    ensures
        h3_frame(kind, payload) == varint_bytes(kind) + varint_bytes(payload.len() as u64) + payload,
        H3_FRAME_DATA == 0,
        H3_FRAME_HEADERS == 1,
        H3_FRAME_SETTINGS == 4,
        FRAME_TYPE_TCP_REQUEST == 0x401,
        h3_progress(s) matches H3Progress::Frame(_, from, to) ==> from <= to <= s.len() && to - from
            <= 1_048_576,
        h3_progress(s) matches H3Progress::TooLarge(n) ==> n > 1_048_576,
{
}

// ---- authentication ----

/// The header at `i` has the name; the case of its letters may not count.
pub open spec fn named(
    headers: Seq<(Seq<char>, Seq<char>)>,
    i: int,
    name: Seq<char>,
    any_case: bool,
) -> bool {
    if any_case {
        same_word(headers[i].0, name)
    } else {
        headers[i].0 == name
    }
}

/// The first header of a name is the one that counts.
pub proof fn first_header_counts(
    headers: Seq<(Seq<char>, Seq<char>)>,
    name: Seq<char>,
    any_case: bool,
    i: int,
)
    requires
        0 <= i < headers.len(),
        named(headers, i, name, any_case),
        forall|j: int| 0 <= j < i ==> !#[trigger] named(headers, j, name, any_case),
    ensures
        header_value(headers, name, any_case) == Some(headers[i].1),
    decreases headers.len(),
{
    case_does_not_count(headers[0].0, name);
    if i > 0 {
        let rest = headers.skip(1);
        assert(!named(headers, 0, name, any_case));
        assert forall|j: int| 0 <= j < i - 1 implies !#[trigger] named(rest, j, name, any_case) by {
            assert(rest[j] == headers[j + 1]);
            assert(!named(headers, j + 1, name, any_case));
        }
        assert(rest[i - 1] == headers[i]);
        first_header_counts(rest, name, any_case, i - 1);
    }
}

/// Where no header has a name, none counts.
pub proof fn no_header_counts(
    headers: Seq<(Seq<char>, Seq<char>)>,
    name: Seq<char>,
    any_case: bool,
)
    requires
        forall|j: int| 0 <= j < headers.len() ==> !#[trigger] named(headers, j, name, any_case),
    ensures
        header_value(headers, name, any_case) is None,
    decreases headers.len(),
{
    if headers.len() > 0 {
        case_does_not_count(headers[0].0, name);
        let rest = headers.skip(1);
        assert(!named(headers, 0, name, any_case));
        assert forall|j: int| 0 <= j < rest.len() implies !#[trigger] named(
            rest,
            j,
            name,
            any_case,
        ) by {
            assert(rest[j] == headers[j + 1]);
            assert(!named(headers, j + 1, name, any_case));
        }
        no_header_counts(rest, name, any_case);
    }
}

/// UDP is granted exactly where the first header named hysteria-udp says true, in letters of any
/// case. One that says anything else, or none, does not grant it.
pub proof fn udp_is_granted(headers: Seq<(Seq<char>, Seq<char>)>, i: int)
    requires
        0 <= i < headers.len(),
        same_word(headers[i].0, "hysteria-udp"@),
        forall|j: int| 0 <= j < i ==> !#[trigger] named(headers, j, "hysteria-udp"@, true),
    ensures
        udp_granted(headers) <==> same_word(headers[i].1, "true"@),
{
    first_header_counts(headers, "hysteria-udp"@, true, i);
    case_does_not_count(headers[i].1, "true"@);
}

/// Without a header named hysteria-udp UDP is not granted.
pub proof fn silence_grants_no_udp(headers: Seq<(Seq<char>, Seq<char>)>)
    requires
        forall|j: int|
            0 <= j < headers.len() ==> !#[trigger] named(headers, j, "hysteria-udp"@, true),
    ensures
        !udp_granted(headers),
{
    no_header_counts(headers, "hysteria-udp"@, true);
}

/// The rate that the server allows is the number in the first header named hysteria-cc-rx; auto
/// stands for no limit, and anything else says nothing.
pub proof fn rate_is_read(headers: Seq<(Seq<char>, Seq<char>)>, i: int)
    requires
        0 <= i < headers.len(),
        same_word(headers[i].0, "hysteria-cc-rx"@),
        forall|j: int| 0 <= j < i ==> !#[trigger] named(headers, j, "hysteria-cc-rx"@, true),
    ensures
        same_word(headers[i].1, "auto"@) ==> server_rate(headers) == 0xffff_ffff_ffff_ffff,
        !same_word(headers[i].1, "auto"@) ==> server_rate(headers) == (match parsed_number(
            headers[i].1,
            0xffff_ffff_ffff_ffff,
        ) {
            Some(n) => n,
            None => 0,
        }),
{
    first_header_counts(headers, "hysteria-cc-rx"@, true, i);
    case_does_not_count(headers[i].1, "auto"@);
}

/// The client sends at the smaller of its own rate and that of the server, where both have one. It
/// does not hold a rate where it has none itself, and keeps its own where the server has none.
pub proof fn smaller_rate_is_agreed(local: nat, server: nat)
    ensures
        local == 0 ==> agreed_rate(local, server) == 0,
        server == 0 ==> agreed_rate(local, server) == local,
        0 < local <= server ==> agreed_rate(local, server) == local,
        0 < server <= local ==> agreed_rate(local, server) == server,
{
}

/// The server lets a client in exactly with the status 233 in the first header named :status.
pub proof fn status_233_lets_in(headers: Seq<(Seq<char>, Seq<char>)>, local: nat)
    ensures
        ({
            let said = match header_value(headers, ":status"@, false) {
                Some(v) => v,
                None => Seq::empty(),
            };
            match (auth_outcome(headers, local), parsed_number(said, 65535)) {
                (Ok(info), Some(n)) => n == 233 && info.udp_enabled == udp_granted(headers)
                    && info.tx_bps == agreed_rate(local, server_rate(headers)) as u64,
                (Err(AuthError::Rejected(c)), Some(n)) => n != 233 && c == n,
                (Err(AuthError::InvalidStatus), None) => true,
                _ => false,
            }
        }),
{
    reveal_strlit("");
    assert(""@ =~= Seq::empty());
    numbers_are_digits(
        match header_value(headers, ":status"@, false) {
            Some(v) => v,
            None => Seq::empty(),
        },
        65535,
    );
}

/// Of the frames of an answer, that of type 1 decides, those of type 0 are passed over, and any
/// other is a fault.
pub proof fn headers_decide(kind: u64, payload: Seq<u8>, local: nat)
    ensures
        kind == 0 ==> auth_step(kind, payload, local) == AuthStep::ReadOn,
        kind > 1 ==> auth_step(kind, payload, local) == AuthStep::Fail(
            AuthError::UnexpectedFrame(kind),
        ),
        kind == 1 && payload.len() < 2 ==> auth_step(kind, payload, local) == AuthStep::Fail(
            AuthError::BadHeaders,
        ),
        kind == 1 && payload.len() >= 2 ==> auth_step(kind, payload, local) == (
        match auth_outcome(fields_from(payload, 2), local) {
            Ok(info) => AuthStep::Done(info),
            Err(e) => AuthStep::Fail(e),
        }),
{
}

/// A server that reads the request finds a POST to /auth of the host hysteria by https, the
/// password, the rate that the client takes, and the padding.
pub proof fn request_is_read(password: Seq<char>, rx_bps: nat, padding: Seq<char>)
    ensures
        ({
            let h = fields_from(literal_block(auth_headers(password, rx_bps, padding)), 2);
            &&& h.len() == 7
            &&& h[0] == (":method"@, "POST"@)
            &&& h[1] == (":scheme"@, "https"@)
            &&& h[2] == (":authority"@, "hysteria"@)
            &&& h[3] == (":path"@, "/auth"@)
            &&& h[4] == ("hysteria-auth"@, password)
            &&& h[5].0 == "hysteria-cc-rx"@
            &&& digits_value(h[5].1) == rx_bps
            &&& h[6] == ("hysteria-padding"@, padding)
        }),
{
    crate::qpack::block_round_trip(auth_headers(password, rx_bps, padding));
    crate::laws::words::numbers_are_read_back(rx_bps);
}

// ---- header blocks ----

/// A literal line starts with 0x20 and the length of the name in three bits, has the length of the
/// value in seven bits, and longer lengths go on in bytes of seven bits, the low ones first.
pub proof fn literal_lines_are_written(name: Seq<u8>, value: Seq<u8>, v: nat)
    ensures
        literal_bytes(name, value) == int_bytes(name.len(), 3, 0x20) + name + int_bytes(
            value.len(),
            7,
            0,
        ) + value,
        v < 7 ==> int_bytes(v, 3, 0x20) == seq![(0x20 + v) as u8],
        7 <= v < 135 ==> int_bytes(v, 3, 0x20) == seq![0x27u8, (v - 7) as u8],
        v < 127 ==> int_bytes(v, 7, 0) == seq![v as u8],
        127 <= v < 255 ==> int_bytes(v, 7, 0) == seq![0x7fu8, (v - 127) as u8],
        v < 128 ==> tail_bytes(v) == seq![v as u8],
        v >= 128 ==> tail_bytes(v) == seq![(128 + v % 128) as u8] + tail_bytes(v / 128),
{
    lemma2_to64();
    assert(pow2(3) == 8 && pow2(7) == 128);
    if 7 <= v < 135 {
        assert(int_bytes(v, 3, 0x20) =~= seq![0x27u8, (v - 7) as u8]);
    }
    if 127 <= v < 255 {
        assert(int_bytes(v, 7, 0) =~= seq![0x7fu8, (v - 127) as u8]);
    }
}

/// The first byte of a line tells its form: an entry of the table from 0x80 on, a name from the
/// table with a value from 0x40 on, a name and a value from 0x20 on; others are passed over.
pub proof fn lines_by_their_first_byte(s: Seq<u8>, i: int)
    requires
        0 <= i < s.len(),
    ensures
        s[i] < 32 ==> field_at(s, i) == Field::Skip(i + 1),
        32 <= s[i] < 64 ==> field_at(s, i) == (match string_at(s, i, 3) {
            None => Field::Stop,
            Some((name, mid)) => match string_at(s, mid, 7) {
                None => Field::Stop,
                Some((value, next)) => Field::Header(name, value, next),
            },
        }),
        64 <= s[i] < 128 ==> (field_at(s, i) matches Field::Header(name, value, next) ==> (
        crate::qpack::qpack_int(s.skip(i), 4) matches Some((idx, n)) && string_at(s, i + n, 7)
            == Some((value, next)) && (match static_entry(idx) {
            Some((known, _)) => name == known,
            None => name.len() == 0,
        }))),
        s[i] >= 128 ==> (field_at(s, i) matches Field::Header(name, value, next) ==> (
        crate::qpack::qpack_int(s.skip(i), 6) matches Some((idx, n)) && next == i + n
            && static_entry(idx) == Some((name, value)))),
{
}

/// The entries of the table that an answer can hold.
pub proof fn table_entries()
    ensures
        static_entry(0) == Some((":authority"@, ""@)),
        static_entry(1) == Some((":path"@, "/"@)),
        static_entry(2) == Some(("age"@, "0"@)),
        static_entry(3) == Some(("content-disposition"@, ""@)),
        static_entry(4) == Some(("content-length"@, "0"@)),
        static_entry(5) == Some(("cookie"@, ""@)),
        static_entry(6) == Some(("date"@, ""@)),
        static_entry(7) == Some(("etag"@, ""@)),
        static_entry(8) == Some(("if-modified-since"@, ""@)),
        static_entry(9) == Some(("if-none-match"@, ""@)),
        static_entry(10) == Some(("last-modified"@, ""@)),
        static_entry(11) == Some(("link"@, ""@)),
        static_entry(12) == Some(("location"@, ""@)),
        static_entry(13) == Some(("referer"@, ""@)),
        static_entry(14) == Some(("set-cookie"@, ""@)),
        static_entry(15) == Some((":method"@, "CONNECT"@)),
        static_entry(16) == Some((":method"@, "DELETE"@)),
        static_entry(17) == Some((":method"@, "GET"@)),
        static_entry(18) == Some((":method"@, "HEAD"@)),
        static_entry(19) == Some((":method"@, "OPTIONS"@)),
        static_entry(20) == Some((":method"@, "POST"@)),
        static_entry(21) == Some((":method"@, "PUT"@)),
        static_entry(22) == Some((":scheme"@, "http"@)),
        static_entry(23) == Some((":scheme"@, "https"@)),
        static_entry(24) == Some((":status"@, "103"@)),
        static_entry(25) == Some((":status"@, "200"@)),
        static_entry(26) == Some((":status"@, "304"@)),
        static_entry(27) == Some((":status"@, "404"@)),
        static_entry(28) == Some((":status"@, "503"@)),
        forall|i: nat| i > 28 ==> (#[trigger] static_entry(i)) is None,
{
    reveal(static_entry);
}

// ---- streams ----

/// A server reads the type 0x401, the address behind its length, and the padding behind its own.
pub proof fn tcp_request_is_read(addr: Seq<u8>, padding: Seq<u8>)
    requires
        addr.len() < 0x4000_0000_0000_0000,
        padding.len() < 0x4000_0000_0000_0000,
    ensures
        ({
            let req = tcp_request_bytes(addr, padding);
            &&& req.take(2) == seq![0x44u8, 0x01u8]
            &&& varint_at(req) matches Ok((kind, w)) && w == 2 && kind == 0x401
            &&& varint_at(req.skip(2)) matches Ok((n, a)) && n == addr.len() && req.skip(
                2 + a as int,
            ).take(n as int) == addr && (varint_at(req.skip(2 + a as int + n as int)) matches Ok(
                (p, b),
            ) && p == padding.len() && req.skip(2 + a as int + n as int + b as int) == padding)
        }),
{
    let req = tcp_request_bytes(addr, padding);
    let kind = varint_bytes(0x401);
    let va = varint_bytes(addr.len() as u64);
    let vp = varint_bytes(padding.len() as u64);
    varints_are_read(0x401, 0);
    assert(kind =~= seq![0x44u8, 0x01u8]);
    varint_round_trip(0x401, va + addr + vp + padding);
    assert(req =~= kind + (va + addr + vp + padding));
    varint_round_trip(addr.len() as u64, addr + vp + padding);
    assert(req.skip(2) =~= va + (addr + vp + padding));
    let a = va.len() as int;
    let n = addr.len() as int;
    assert(req.skip(2 + a).take(n) =~= addr);
    varint_round_trip(padding.len() as u64, padding);
    assert(req.skip(2 + a + n) =~= vp + padding);
    assert(req.skip(2 + a + n + vp.len()) =~= padding);
    assert(req.take(2) =~= seq![0x44u8, 0x01u8]);
}

proof fn step_reads(before: Seq<u8>, v: u64, rest: Seq<u8>)
    requires
        v < 0x4000_0000_0000_0000,
    ensures
        varint_step(before + (varint_bytes(v) + rest), before.len()) == Ok::<(nat, nat), nat>(
            (v as nat, before.len() + varint_bytes(v).len()),
        ),
        1 <= varint_bytes(v).len() <= 8,
{
    varint_round_trip(v, rest);
    let t = varint_bytes(v) + rest;
    let s = before + t;
    let at = before.len() as int;
    let n = varint_bytes(v).len() as int;
    assert(s[at] == t[0]);
    assert(s.subrange(at, at + n) =~= t.take(n));
}

/// An answer with the status 0 opens the stream, and one with any other refuses it, with its
/// message. A message of more than 2048 bytes or padding of more than 4096 is a fault. What
/// follows the answer belongs to the stream.
pub proof fn tcp_answer_is_read(status: u8, msg: Seq<u8>, pad: Seq<u8>, rest: Seq<u8>)
    requires
        msg.len() < 0x4000_0000,
        pad.len() < 0x4000_0000,
    ensures
        ({
            let a = seq![status] + varint_bytes(msg.len() as u64) + msg;
            let s = a + varint_bytes(pad.len() as u64) + pad;
            let got = tcp_progress(s + rest);
            if msg.len() > 2048 {
                got == TcpProgress::MessageTooLong
            } else if status != 0 {
                got matches TcpProgress::Rejected(c, from, to) && c == status && (s + rest).subrange(
                    from as int,
                    to as int,
                ) == msg
            } else if pad.len() > 4096 {
                got == TcpProgress::PaddingTooLong
            } else {
                got == TcpProgress::Accepted(s.len() as usize)
            }
        }),
{
    let vm = varint_bytes(msg.len() as u64);
    let vp = varint_bytes(pad.len() as u64);
    let a = seq![status] + vm + msg;
    let s = a + vp + pad;
    let all = s + rest;
    step_reads(seq![status], msg.len() as u64, msg + vp + pad + rest);
    assert(all =~= seq![status] + (vm + (msg + vp + pad + rest)));
    step_reads(a, pad.len() as u64, pad + rest);
    assert(all =~= a + (vp + (pad + rest)));
    let from = 1 + vm.len() as int;
    assert(all.subrange(from, from + msg.len()) =~= msg);
    assert(all[0] == status);
    assert(a.len() == from + msg.len());
}

// ---- datagrams ----

/// A datagram starts with the session in four bytes, the packet in two, the number of the fragment
/// and their count in one each; the address follows behind its length.
pub proof fn datagram_heads(h: FragHeader, addr: Seq<u8>)
    ensures
        udp_header(h, addr) == four(h.session_id as nat) + two(h.packet_id as nat) + seq![
            h.frag_id,
            h.frag_count,
        ] + varint_bytes(addr.len() as u64) + addr,
        MAX_DATAGRAM_PAYLOAD == 1197,
{
    network_order(h.session_id as nat);
    network_order(h.packet_id as nat);
}

/// What the head of a datagram says, byte by byte.
pub proof fn datagram_heads_are_read(s: Seq<u8>)
    requires
        frag_header(s) is Ok,
    ensures
        frag_header(s) matches Ok((h, n)) && s.len() >= 9 && h.session_id == s[0] * 0x100_0000
            + s[1] * 0x1_0000 + s[2] * 256 + s[3] && h.packet_id == s[4] * 256 + s[5] && h.frag_id
            == s[6] && h.frag_count == s[7] && (varint_at(s.skip(8)) matches Ok((len, w)) && n == 8
            + w + len && n <= s.len()),
{
    network_value(s.subrange(0, 4));
    network_value(s.subrange(4, 6));
}

/// No datagram of a packet is longer than 1197 bytes, unless the address alone fills it, and all but
/// the last are as long as that.
pub proof fn datagrams_fit(
    session_id: u32,
    packet_id: u16,
    addr: Seq<u8>,
    data: Seq<u8>,
    i: int,
)
    requires
        9 + varint_bytes(addr.len() as u64).len() + addr.len() < 1197,
        0 <= i < chunk_count(data.len(), chunk_size(addr)),
    ensures
        ({
            let d = udp_fragment(session_id, packet_id, addr, data, i);
            &&& d.len() <= 1197
            &&& i + 1 < chunk_count(data.len(), chunk_size(addr)) ==> d.len() == 1197
        }),
{
    let size = chunk_size(addr);
    let n = chunk_count(data.len(), size);
    let t = (data.len() + size - 1) as int;
    let h = FragHeader {
        session_id,
        packet_id,
        frag_id: (i % 256) as u8,
        frag_count: (n % 256) as u8,
    };
    datagram_heads(h, addr);
    assert(size + 8 + varint_bytes(addr.len() as u64).len() + addr.len() == 1197);
    vstd::arithmetic::div_mod::lemma_fundamental_div_mod(t, size as int);
    assert(i * size <= (n - 1) * size) by (nonlinear_arith)
        requires
            i <= n - 1,
            size >= 0,
    ;
    assert((n - 1) * size == size * n - size) by (nonlinear_arith);
    assert((i + 1) * size == i * size + size) by (nonlinear_arith);
    if i + 1 < n {
        assert((i + 1) * size <= (n - 1) * size) by (nonlinear_arith)
            requires
                i + 1 <= n - 1,
                size >= 0,
        ;
    }
}

// ---- settings ----

/// The first window holds what is sent at the rate in a tenth of a second, in bytes, and is never
/// below 1024.
pub proof fn window_holds_a_tenth(bps: nat)
    ensures
        rate_window(bps) >= 1024,
        bps >= 81920 ==> 80 * rate_window(bps) <= bps < 80 * (rate_window(bps) + 1),
        bps < 81920 ==> rate_window(bps) == 1024,
{
    let w = bps * 100 / 1000 / 8;
    assert(w == bps / 80) by {
        assert(bps * 100 / 1000 == bps / 10);
        assert(bps / 10 / 8 == bps / 80);
    }
}

/// The settings of the transport: 8 mebibytes for a stream, 20 for a connection in either
/// direction, 2 for datagrams, half a minute without traffic, and a sign of life every ten seconds.
pub proof fn transport_settings(up_mbps: nat)
    ensures
        ({
            let p = params_for(up_mbps);
            &&& p.stream_receive_window == 8 * 1024 * 1024
            &&& p.receive_window == 20 * 1024 * 1024
            &&& p.send_window == 20 * 1024 * 1024
            &&& p.datagram_receive_buffer == 2 * 1024 * 1024
            &&& p.max_idle_timeout_ms == 30 * 1000
            &&& p.keep_alive_secs == 10
            &&& p.initial_window is Some <==> up_mbps > 0
            &&& p.initial_window matches Some(w) ==> w == rate_window(up_mbps * 1_000_000) as u64
        }),
{
}

/// Padding is of letters and digits, and each of the 62 can be drawn.
pub proof fn padding_is_of_letters_and_digits(i: int, j: int)
    requires
        0 <= i < j < 62,
    ensures
        padding_char(i) != padding_char(j),
        forall|k: int|
            0 <= k < 62 ==> ({
                let c = #[trigger] padding_char(k);
                ('a' <= c && c <= 'z') || ('A' <= c && c <= 'Z') || ('0' <= c && c <= '9')
            }),
        forall|c: char| #[trigger]
            is_padding_char(c) <==> ('a' <= c && c <= 'z') || ('A' <= c && c <= 'Z') || ('0' <= c
                && c <= '9'),
{
}

} // verus!
