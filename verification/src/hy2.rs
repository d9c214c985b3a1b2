//! Hysteria2 client: authentication over HTTP/3, TCP requests, and UDP datagrams with
//! fragmentation.

use crate::config::{mbps_to_bps, Hysteria2OutboundConfig};
use crate::fragment::{split_udp, udp_fragments};
use crate::net::{is_target_text, Target};
use crate::qpack::{
    fields_from, header_texts, literal_block, literal_bytes, literal_lines,
    parse_headers_from_qpack, put_literal_header,
};
use crate::random::random_below;
use crate::text::{
    dec_text, eq_ignore_case, lower_text, parse_number, parsed_number, push_dec, text_eq,
};
use crate::varint::{
    decode_varint_slice, varint_bytes, varint_len, varint_limit, varint_range, varint_round_trip,
    varint_width, write_varint,
};
use crate::wire::{be_value, put_bytes};
use vstd::prelude::*;
use vstd::utf8::encode_utf8;

verus! {

/// The status of a successful authentication.
pub const STATUS_AUTH_OK: u16 = 233;

/// Type of the request that opens a TCP stream.
pub const FRAME_TYPE_TCP_REQUEST: u64 = 0x401;

/// The longest message that a TCP response may carry.
pub const MAX_MESSAGE_LENGTH: u64 = 2048;

/// The longest padding that a TCP response may carry.
pub const MAX_PADDING_LENGTH: u64 = 4096;

/// The largest HTTP/3 frame that is read.
pub const MAX_H3_FRAME: u64 = 1_048_576;

/// QUIC receive window of one stream.
pub const QUIC_STREAM_RECEIVE_WINDOW: u64 = 8_388_608;

/// QUIC receive window of a connection.
pub const QUIC_MAX_CONNECTION_RECEIVE_WINDOW: u64 = 20_971_520;

/// HTTP/3 frame types.
pub const H3_FRAME_DATA: u64 = 0;

pub const H3_FRAME_HEADERS: u64 = 1;

pub const H3_FRAME_SETTINGS: u64 = 4;

/// What the server granted.
#[derive(Clone, Copy, Debug, PartialEq, Eq, Structural)]
pub struct AuthInfo {
    /// Whether UDP may be relayed.
    pub udp_enabled: bool,
    /// The sending rate in bits per second; zero leaves the rate to congestion control.
    pub tx_bps: u64,
}

/// Why authentication failed.
#[derive(Clone, Copy, Debug, PartialEq, Eq, Structural)]
pub enum AuthError {
    /// A frame other than DATA came before the headers.
    UnexpectedFrame(u64),
    /// The header block cannot be read.
    BadHeaders,
    /// The status is missing or no number.
    InvalidStatus,
    /// The server answered with another status.
    Rejected(u16),
}

/// What to do about a frame of the response.
#[derive(Clone, Copy, Debug, PartialEq, Eq, Structural)]
pub enum AuthStep {
    /// Read the next frame.
    ReadOn,
    Done(AuthInfo),
    Fail(AuthError),
}

/// An HTTP/3 frame at the start of what has been read.
#[derive(Clone, Copy, Debug, PartialEq, Eq, Structural)]
pub enum H3Progress {
    /// At least this many bytes in all are needed.
    Need(usize),
    /// The payload is longer than is accepted.
    TooLarge(u64),
    /// A whole frame: its type and where its payload starts and ends.
    Frame(u64, usize, usize),
}

/// The response to a TCP request at the start of what has been read.
#[derive(Clone, Copy, Debug, PartialEq, Eq, Structural)]
pub enum TcpProgress {
    /// At least this many bytes in all are needed.
    Need(usize),
    /// The stream is open; the response ends here.
    Accepted(usize),
    /// Refused, with the place of the message.
    Rejected(u8, usize, usize),
    MessageTooLong,
    PaddingTooLong,
}

// ---- authentication ----

/// The headers of the authentication request.
pub open spec fn auth_headers(password: Seq<char>, rx_bps: nat, padding: Seq<char>) -> Seq<
    (Seq<char>, Seq<char>),
> {
    seq![
        (":method"@, "POST"@),
        (":scheme"@, "https"@),
        (":authority"@, "hysteria"@),
        (":path"@, "/auth"@),
        ("hysteria-auth"@, password),
        ("hysteria-cc-rx"@, dec_text(rx_bps)),
        ("hysteria-padding"@, padding),
    ]
}

/// An HTTP/3 frame.
pub open spec fn h3_frame(frame_type: u64, payload: Seq<u8>) -> Seq<u8> {
    varint_bytes(frame_type) + varint_bytes(payload.len() as u64) + payload
}

/// The value of the first header with the given name, whose letters may differ in case
/// where `any_case` holds.
pub open spec fn header_value(
    headers: Seq<(Seq<char>, Seq<char>)>,
    name: Seq<char>,
    any_case: bool,
) -> Option<Seq<char>>
    decreases headers.len(),
{
    if headers.len() == 0 {
        None
    } else if headers[0].0 == name || (any_case && lower_text(headers[0].0) == lower_text(name)) {
        Some(headers[0].1)
    } else {
        header_value(headers.skip(1), name, any_case)
    }
}

/// The bandwidth that the server names: `auto` sets no limit, and zero stands for a
/// missing or unreadable value.
pub open spec fn server_rate(headers: Seq<(Seq<char>, Seq<char>)>) -> nat {
    match header_value(headers, "hysteria-cc-rx"@, true) {
        Some(v) => if lower_text(v) == lower_text("auto"@) {
            u64::MAX as nat
        } else {
            match parsed_number(v, u64::MAX as nat) {
                Some(n) => n,
                None => 0,
            }
        },
        None => 0,
    }
}

/// The sending rate that both sides agree on.
pub open spec fn agreed_rate(local: nat, server: nat) -> nat {
    if local == 0 {
        0
    } else if server == 0 || local <= server {
        local
    } else {
        server
    }
}

/// Whether the server relays UDP.
pub open spec fn udp_granted(headers: Seq<(Seq<char>, Seq<char>)>) -> bool {
    match header_value(headers, "hysteria-udp"@, true) {
        Some(v) => lower_text(v) == lower_text("true"@),
        None => false,
    }
}

/// The status that the response gives.
pub open spec fn status_of(headers: Seq<(Seq<char>, Seq<char>)>) -> Option<nat> {
    parsed_number(
        match header_value(headers, ":status"@, false) {
            Some(v) => v,
            None => ""@,
        },
        u16::MAX as nat,
    )
}

/// What the headers of the response settle.
pub open spec fn auth_outcome(headers: Seq<(Seq<char>, Seq<char>)>, local: nat) -> Result<
    AuthInfo,
    AuthError,
> {
    match status_of(headers) {
        None => Err(AuthError::InvalidStatus),
        Some(n) => if n != STATUS_AUTH_OK {
            Err(AuthError::Rejected(n as u16))
        } else {
            Ok(
                AuthInfo {
                    udp_enabled: udp_granted(headers),
                    tx_bps: agreed_rate(local, server_rate(headers)) as u64,
                },
            )
        },
    }
}

/// What a frame of the response means.
pub open spec fn auth_step(frame_type: u64, payload: Seq<u8>, local: nat) -> AuthStep {
    if frame_type == H3_FRAME_HEADERS {
        if payload.len() < 2 {
            AuthStep::Fail(AuthError::BadHeaders)
        } else {
            match auth_outcome(fields_from(payload, 2), local) {
                Ok(info) => AuthStep::Done(info),
                Err(e) => AuthStep::Fail(e),
            }
        }
    } else if frame_type == H3_FRAME_DATA {
        AuthStep::ReadOn
    } else {
        AuthStep::Fail(AuthError::UnexpectedFrame(frame_type))
    }
}

/// The agreed rate never exceeds what either side set as a limit.
pub proof fn agreed_rate_bounded(local: nat, server: nat)
    ensures
        agreed_rate(local, server) <= local,
        server != 0 ==> agreed_rate(local, server) <= server,
        agreed_rate(local, server) == 0 <==> local == 0,
{
}

/// Appends an HTTP/3 frame: type, length and payload.
pub fn write_h3_frame(buf: &mut Vec<u8>, frame_type: u64, payload: &[u8])
    ensures
        final(buf)@ == old(buf)@ + h3_frame(frame_type, payload@),
{
    write_varint(buf, frame_type);
    write_varint(buf, payload.len() as u64);
    put_bytes(buf, payload);
    assert(buf@ =~= old(buf)@ + h3_frame(frame_type, payload@));
}

/// What opens the three one-way streams that HTTP/3 asks of a client: control with empty
/// settings, QPACK encoder, QPACK decoder.
pub fn control_stream_preludes() -> (preludes: (Vec<u8>, Vec<u8>, Vec<u8>))
    ensures
        preludes.0@ == seq![0u8] + h3_frame(H3_FRAME_SETTINGS, Seq::empty()),
        preludes.1@ == seq![2u8],
        preludes.2@ == seq![3u8],
{
    let mut control: Vec<u8> = vec![0u8];
    let empty: Vec<u8> = Vec::new();
    write_h3_frame(&mut control, H3_FRAME_SETTINGS, &empty);
    assert(control@ =~= seq![0u8] + h3_frame(H3_FRAME_SETTINGS, Seq::empty()));
    let encoder: Vec<u8> = vec![2u8];
    let decoder: Vec<u8> = vec![3u8];
    assert(encoder@ =~= seq![2u8]);
    assert(decoder@ =~= seq![3u8]);
    (control, encoder, decoder)
}

/// The line of the header at `i`.
spec fn line_at(h: Seq<(Seq<char>, Seq<char>)>, i: int) -> Seq<u8> {
    literal_bytes(encode_utf8(h[i].0), encode_utf8(h[i].1))
}

proof fn next_line(h: Seq<(Seq<char>, Seq<char>)>, i: int)
    requires
        0 <= i < h.len(),
    ensures
        literal_lines(h.skip(i)) == line_at(h, i) + literal_lines(h.skip(i + 1)),
{
    assert(h.skip(i).skip(1) =~= h.skip(i + 1));
}

proof fn seven_in_a_row(
    a: Seq<u8>,
    b: Seq<u8>,
    c: Seq<u8>,
    d: Seq<u8>,
    e: Seq<u8>,
    f: Seq<u8>,
    g: Seq<u8>,
)
    ensures
        a + (b + (c + (d + (e + (f + (g + Seq::<u8>::empty())))))) == a + b + c + d + e + f + g,
{
    assert(a + (b + (c + (d + (e + (f + (g + Seq::<u8>::empty())))))) =~= a + b + c + d + e + f
        + g);
}

proof fn lines_of_seven(h: Seq<(Seq<char>, Seq<char>)>)
    requires
        h.len() == 7,
    ensures
        literal_lines(h) == line_at(h, 0) + line_at(h, 1) + line_at(h, 2) + line_at(h, 3) + line_at(
            h,
            4,
        ) + line_at(h, 5) + line_at(h, 6),
{
    assert(h.skip(0) =~= h);
    next_line(h, 0);
    next_line(h, 1);
    next_line(h, 2);
    next_line(h, 3);
    next_line(h, 4);
    next_line(h, 5);
    next_line(h, 6);
    assert(h.skip(7) =~= Seq::empty());
    seven_in_a_row(
        line_at(h, 0),
        line_at(h, 1),
        line_at(h, 2),
        line_at(h, 3),
        line_at(h, 4),
        line_at(h, 5),
        line_at(h, 6),
    );
}

/// The HEADERS frame of the authentication request.
pub fn auth_request(password: &str, rx_bps: u64, padding: &str) -> (frame: Vec<u8>)
    ensures
        frame@ == h3_frame(
            H3_FRAME_HEADERS,
            literal_block(auth_headers(password@, rx_bps as nat, padding@)),
        ),
{
    let mut rate: String = String::new();
    push_dec(&mut rate, rx_bps);
    assert(rate@ =~= dec_text(rx_bps as nat));
    let mut block: Vec<u8> = vec![0u8, 0u8];
    put_literal_header(&mut block, ":method".as_bytes(), "POST".as_bytes());
    put_literal_header(&mut block, ":scheme".as_bytes(), "https".as_bytes());
    put_literal_header(&mut block, ":authority".as_bytes(), "hysteria".as_bytes());
    put_literal_header(&mut block, ":path".as_bytes(), "/auth".as_bytes());
    put_literal_header(&mut block, "hysteria-auth".as_bytes(), password.as_bytes());
    put_literal_header(&mut block, "hysteria-cc-rx".as_bytes(), rate.as_str().as_bytes());
    put_literal_header(&mut block, "hysteria-padding".as_bytes(), padding.as_bytes());
    proof {
        let h = auth_headers(password@, rx_bps as nat, padding@);
        lines_of_seven(h);
        assert(block@ =~= literal_block(h));
    }
    let mut frame: Vec<u8> = Vec::new();
    write_h3_frame(&mut frame, H3_FRAME_HEADERS, &block);
    assert(frame@ =~= h3_frame(
        H3_FRAME_HEADERS,
        literal_block(auth_headers(password@, rx_bps as nat, padding@)),
    ));
    frame
}

/// The value of the first header of that name.
fn find_header(headers: &Vec<(String, String)>, name: &str, any_case: bool) -> (value: Option<
    String,
>)
    ensures
        match (value, header_value(header_texts(headers@), name@, any_case)) {
            (Some(v), Some(w)) => v@ == w,
            (None, None) => true,
            _ => false,
        },
{
    let ghost all = header_texts(headers@);
    let mut i: usize = 0;
    assert(all.skip(0) =~= all);
    while i < headers.len()
        invariant
            i <= headers@.len(),
            all == header_texts(headers@),
            header_value(all, name@, any_case) == header_value(
                all.skip(i as int),
                name@,
                any_case,
            ),
        decreases headers@.len() - i,
    {
        assert(all.skip(i as int)[0] == (headers@[i as int].0@, headers@[i as int].1@));
        if text_eq(&headers[i].0, name) || (any_case && eq_ignore_case(&headers[i].0, name)) {
            return Some(headers[i].1.clone());
        }
        assert(all.skip(i as int).skip(1) =~= all.skip(i + 1));
        i += 1;
    }
    None
}

/// Settles the outcome from the headers of the response and the local sending rate.
pub fn auth_result(headers: &Vec<(String, String)>, tx_bps_local: u64) -> (res: Result<
    AuthInfo,
    AuthError,
>)
    ensures
        res == auth_outcome(header_texts(headers@), tx_bps_local as nat),
{
    let status: String = match find_header(headers, ":status", false) {
        Some(v) => v,
        None => "".to_string(),
    };
    let code: u64 = match parse_number(&status, 65535) {
        Some(n) => n,
        None => {
            return Err(AuthError::InvalidStatus);
        },
    };
    if code != STATUS_AUTH_OK as u64 {
        return Err(AuthError::Rejected(code as u16));
    }
    let udp_enabled: bool = match find_header(headers, "hysteria-udp", true) {
        Some(v) => eq_ignore_case(&v, "true"),
        None => false,
    };
    let server_rx: u64 = match find_header(headers, "hysteria-cc-rx", true) {
        Some(v) => if eq_ignore_case(&v, "auto") {
            u64::MAX
        } else {
            match parse_number(&v, u64::MAX) {
                Some(n) => n,
                None => 0,
            }
        },
        None => 0,
    };
    let tx_bps: u64 = if tx_bps_local == 0 {
        0
    } else if server_rx == 0 || tx_bps_local <= server_rx {
        tx_bps_local
    } else {
        server_rx
    };
    Ok(AuthInfo { udp_enabled, tx_bps })
}

/// Takes one frame of the response: DATA is passed over, the headers settle the outcome,
/// and anything else is an error.
pub fn auth_on_frame(frame_type: u64, payload: &[u8], tx_bps_local: u64) -> (step: AuthStep)
    ensures
        step == auth_step(frame_type, payload@, tx_bps_local as nat),
{
    if frame_type == H3_FRAME_HEADERS {
        match parse_headers_from_qpack(payload) {
            Err(_) => AuthStep::Fail(AuthError::BadHeaders),
            Ok(headers) => match auth_result(&headers, tx_bps_local) {
                Ok(info) => AuthStep::Done(info),
                Err(e) => AuthStep::Fail(e),
            },
        }
    } else if frame_type == H3_FRAME_DATA {
        AuthStep::ReadOn
    } else {
        AuthStep::Fail(AuthError::UnexpectedFrame(frame_type))
    }
}

// ---- reading from the streams ----

/// The integer at `at` of what has been read: how much is needed for it, or its value and
/// where it ends.
pub open spec fn varint_step(s: Seq<u8>, at: nat) -> Result<(nat, nat), nat> {
    if s.len() <= at {
        Err(at + 1)
    } else if s.len() < at + varint_width(s[at as int]) {
        Err(at + varint_width(s[at as int]))
    } else {
        let n = varint_width(s[at as int]);
        Ok((be_value(s.subrange(at as int, (at + n) as int)) % varint_range(n), at + n))
    }
}

/// The frame at the start of `s`.
pub open spec fn h3_progress(s: Seq<u8>) -> H3Progress {
    match varint_step(s, 0) {
        Err(n) => H3Progress::Need(n as usize),
        Ok((kind, a)) => match varint_step(s, a) {
            Err(n) => H3Progress::Need(n as usize),
            Ok((len, b)) => if len > MAX_H3_FRAME {
                H3Progress::TooLarge(len as u64)
            } else if s.len() < b + len {
                H3Progress::Need((b + len) as usize)
            } else {
                H3Progress::Frame(kind as u64, b as usize, (b + len) as usize)
            },
        },
    }
}

/// The response to a TCP request at the start of `s`: a status byte, a message and padding,
/// the latter two with their lengths in front.
pub open spec fn tcp_progress(s: Seq<u8>) -> TcpProgress {
    if s.len() == 0 {
        TcpProgress::Need(1)
    } else {
        match varint_step(s, 1) {
            Err(n) => TcpProgress::Need(n as usize),
            Ok((len, a)) => if len > MAX_MESSAGE_LENGTH {
                TcpProgress::MessageTooLong
            } else if s.len() < a + len {
                TcpProgress::Need((a + len) as usize)
            } else if s[0] != 0 {
                TcpProgress::Rejected(s[0], a as usize, (a + len) as usize)
            } else {
                match varint_step(s, a + len) {
                    Err(n) => TcpProgress::Need(n as usize),
                    Ok((pad, b)) => if pad > MAX_PADDING_LENGTH {
                        TcpProgress::PaddingTooLong
                    } else if s.len() < b + pad {
                        TcpProgress::Need((b + pad) as usize)
                    } else {
                        TcpProgress::Accepted((b + pad) as usize)
                    },
                }
            },
        }
    }
}

proof fn varint_step_prefix(s: Seq<u8>, at: nat, k: int)
    requires
        0 <= k <= s.len(),
        varint_step(s, at) is Ok,
    ensures
        ({
            let n = varint_step(s, at)->Ok_0.1;
            if k >= n {
                varint_step(s.take(k), at) == varint_step(s, at)
            } else {
                varint_step(s.take(k), at) matches Err(t) && (k >= at ==> k < t <= n)
            }
        }),
{
    let n = varint_step(s, at)->Ok_0.1;
    if k >= n {
        assert(s.take(k).subrange(at as int, n as int) =~= s.subrange(at as int, n as int));
    }
}

/// Reading a TCP response in the steps that are asked for ends exactly where the response
/// ends, so that no byte of the tunnel is taken for part of it.
pub proof fn tcp_response_read_exactly(s: Seq<u8>, n: usize, k: int)
    requires
        tcp_progress(s) == TcpProgress::Accepted(n),
        0 <= k <= s.len(),
    ensures
        n <= s.len(),
        k >= n ==> tcp_progress(s.take(k)) == TcpProgress::Accepted(n),
        k < n ==> (tcp_progress(s.take(k)) matches TcpProgress::Need(t) && k < t <= n),
{
    let (len, a) = varint_step(s, 1)->Ok_0;
    let (pad, b) = varint_step(s, a + len)->Ok_0;
    if k > 0 {
        varint_step_prefix(s, 1, k);
        varint_step_prefix(s, a + len, k);
    }
}

/// Reading an HTTP/3 frame in the steps that are asked for ends exactly where the frame
/// ends.
pub proof fn h3_frame_read_exactly(s: Seq<u8>, kind: u64, from: usize, to: usize, k: int)
    requires
        h3_progress(s) == H3Progress::Frame(kind, from, to),
        0 <= k <= s.len(),
    ensures
        to <= s.len(),
        k >= to ==> h3_progress(s.take(k)) == h3_progress(s),
        k < to ==> (h3_progress(s.take(k)) matches H3Progress::Need(t) && k < t <= to),
{
    let (_, a) = varint_step(s, 0)->Ok_0;
    varint_step_prefix(s, 0, k);
    varint_step_prefix(s, a, k);
}

proof fn step_of_written(before: Seq<u8>, v: u64, rest: Seq<u8>)
    requires
        v < varint_limit(),
    ensures
        varint_step(before + (varint_bytes(v) + rest), before.len()) == Ok::<(nat, nat), nat>(
            (v as nat, before.len() + varint_bytes(v).len()),
        ),
{
    varint_round_trip(v, rest);
    let t = varint_bytes(v) + rest;
    let s = before + t;
    let at = before.len() as int;
    let n = varint_bytes(v).len() as int;
    assert(s[at] == t[0]);
    assert(s.subrange(at, at + n) =~= t.take(n));
}

proof fn short_varint(v: u64)
    requires
        v < varint_limit(),
    ensures
        varint_bytes(v).len() <= 8,
{
    varint_round_trip(v, Seq::empty());
}

/// The ways to look at a frame and what follows it.
proof fn parts_of_frame(head: Seq<u8>, len: Seq<u8>, payload: Seq<u8>, rest: Seq<u8>)
    ensures
        ({
            let s = head + len + payload + rest;
            let b = (head.len() + len.len()) as int;
            &&& s == Seq::<u8>::empty() + (head + (len + payload + rest))
            &&& s == head + (len + (payload + rest))
            &&& s.subrange(b, b + payload.len()) == payload
            &&& s.len() >= b + payload.len()
        }),
{
    let s = head + len + payload + rest;
    let b = (head.len() + len.len()) as int;
    assert(s =~= Seq::<u8>::empty() + (head + (len + payload + rest)));
    assert(s =~= head + (len + (payload + rest)));
    assert(s.subrange(b, b + payload.len()) =~= payload);
}

/// What the two integers at the start of `s` make of it.
proof fn frame_of_steps(s: Seq<u8>, kind: u64, a: nat, n: nat, b: nat)
    requires
        varint_step(s, 0) == Ok::<(nat, nat), nat>((kind as nat, a)),
        varint_step(s, a) == Ok::<(nat, nat), nat>((n, b)),
        n <= MAX_H3_FRAME,
        s.len() >= b + n,
        b <= 16,
    ensures
        h3_progress(s) == H3Progress::Frame(kind, b as usize, (b + n) as usize),
{
}

/// A frame that was written is read back, whatever follows it.
pub proof fn h3_frame_round_trip(kind: u64, payload: Seq<u8>, rest: Seq<u8>)
    requires
        kind < varint_limit(),
        payload.len() <= MAX_H3_FRAME,
    ensures
        ({
            let s = h3_frame(kind, payload) + rest;
            h3_progress(s) matches H3Progress::Frame(k, from, to) && k == kind && s.subrange(
                from as int,
                to as int,
            ) == payload && to == h3_frame(kind, payload).len()
        }),
{
    let head = varint_bytes(kind);
    let len = varint_bytes(payload.len() as u64);
    let s = h3_frame(kind, payload) + rest;
    parts_of_frame(head, len, payload, rest);
    step_of_written(Seq::empty(), kind, len + payload + rest);
    step_of_written(head, payload.len() as u64, payload + rest);
    short_varint(kind);
    short_varint(payload.len() as u64);
    frame_of_steps(s, kind, head.len(), payload.len(), head.len() + len.len());
}

fn read_varint(buf: &[u8], at: usize) -> (res: Result<(u64, usize), usize>)
    requires
        at <= 10000,
    ensures
        match (res, varint_step(buf@, at as nat)) {
            (Ok((v, n)), Ok((w, m))) => v as nat == w && n as nat == m && n <= at + 8 && n
                <= buf@.len(),
            (Err(n), Err(m)) => n as nat == m,
            _ => false,
        },
{
    if buf.len() <= at {
        return Err(at + 1);
    }
    let n: usize = varint_len(buf[at]);
    if buf.len() < at + n {
        return Err(at + n);
    }
    let rest: &[u8] = &buf[at..buf.len()];
    assert(rest@[0] == buf@[at as int]);
    assert(rest@.take(n as int) =~= buf@.subrange(at as int, at + n));
    match decode_varint_slice(rest) {
        Ok((v, m)) => Ok((v, at + m)),
        Err(_) => Err(at + n),
    }
}

/// Looks for a whole HTTP/3 frame at the start of what has been read.
pub fn read_h3_frame(buf: &[u8]) -> (progress: H3Progress)
    ensures
        progress == h3_progress(buf@),
{
    let (kind, a): (u64, usize) = match read_varint(buf, 0) {
        Ok(x) => x,
        Err(n) => {
            return H3Progress::Need(n);
        },
    };
    let (len, b): (u64, usize) = match read_varint(buf, a) {
        Ok(x) => x,
        Err(n) => {
            return H3Progress::Need(n);
        },
    };
    if len > MAX_H3_FRAME {
        return H3Progress::TooLarge(len);
    }
    let end: usize = b + len as usize;
    if buf.len() < end {
        H3Progress::Need(end)
    } else {
        H3Progress::Frame(kind, b, end)
    }
}

/// Looks for a whole response to a TCP request at the start of what has been read.
pub fn read_tcp_response(buf: &[u8]) -> (progress: TcpProgress)
    ensures
        progress == tcp_progress(buf@),
{
    if buf.len() == 0 {
        return TcpProgress::Need(1);
    }
    let (len, a): (u64, usize) = match read_varint(buf, 1) {
        Ok(x) => x,
        Err(n) => {
            return TcpProgress::Need(n);
        },
    };
    if len > MAX_MESSAGE_LENGTH {
        return TcpProgress::MessageTooLong;
    }
    let end: usize = a + len as usize;
    if buf.len() < end {
        return TcpProgress::Need(end);
    }
    if buf[0] != 0 {
        return TcpProgress::Rejected(buf[0], a, end);
    }
    let (pad, b): (u64, usize) = match read_varint(buf, end) {
        Ok(x) => x,
        Err(n) => {
            return TcpProgress::Need(n);
        },
    };
    if pad > MAX_PADDING_LENGTH {
        return TcpProgress::PaddingTooLong;
    }
    let last: usize = b + pad as usize;
    if buf.len() < last {
        TcpProgress::Need(last)
    } else {
        TcpProgress::Accepted(last)
    }
}

/// The request that opens a TCP stream.
pub open spec fn tcp_request_bytes(addr: Seq<u8>, padding: Seq<u8>) -> Seq<u8> {
    varint_bytes(FRAME_TYPE_TCP_REQUEST) + varint_bytes(addr.len() as u64) + addr + varint_bytes(
        padding.len() as u64,
    ) + padding
}

/// The target as `host:port`.
pub fn target_to_addr_str(target: &Target) -> (addr: String)
    ensures
        is_target_text(*target, addr@),
{
    target.to_text()
}

/// The request for a TCP stream to `target`.
pub fn tcp_request(target: &Target, padding: &str) -> (req: Vec<u8>)
    ensures
        exists|addr: Seq<char>| #[trigger]
            is_target_text(*target, addr) && req@ == tcp_request_bytes(
                encode_utf8(addr),
                encode_utf8(padding@),
            ),
{
    let addr: String = target_to_addr_str(target);
    let a: &[u8] = addr.as_str().as_bytes();
    let p: &[u8] = padding.as_bytes();
    let mut req: Vec<u8> = Vec::new();
    write_varint(&mut req, FRAME_TYPE_TCP_REQUEST);
    write_varint(&mut req, a.len() as u64);
    put_bytes(&mut req, a);
    write_varint(&mut req, p.len() as u64);
    put_bytes(&mut req, p);
    assert(req@ =~= tcp_request_bytes(encode_utf8(addr@), encode_utf8(padding@)));
    req
}

// ---- padding ----

/// The characters that padding is made of.
pub open spec fn padding_char(i: int) -> char
    recommends
        0 <= i < 62,
{
    if i < 26 {
        (97 + i) as char
    } else if i < 52 {
        (39 + i) as char
    } else {
        (i - 4) as char
    }
}

/// Whether `c` is a letter or a digit of ASCII.
pub open spec fn is_padding_char(c: char) -> bool {
    'a' <= c <= 'z' || 'A' <= c <= 'Z' || '0' <= c <= '9'
}

/// The padding that the picks stand for.
pub fn padding_text(picks: &[usize]) -> (padding: String)
    requires
        forall|i: int| 0 <= i < picks@.len() ==> picks@[i] < 62,
    ensures
        padding@ == picks@.map_values(|p: usize| padding_char(p as int)),
{
    let mut padding: String = String::new();
    let mut i: usize = 0;
    while i < picks.len()
        invariant
            i <= picks@.len(),
            forall|j: int| 0 <= j < picks@.len() ==> picks@[j] < 62,
            padding@ == picks@.take(i as int).map_values(|p: usize| padding_char(p as int)),
        decreases picks@.len() - i,
    {
        let p: u8 = picks[i] as u8;
        let c: char = if p < 26 {
            (97 + p) as char
        } else if p < 52 {
            (39 + p) as char
        } else {
            (p - 4) as char
        };
        padding.push(c);
        i += 1;
        assert(padding@ =~= picks@.take(i as int).map_values(|p: usize| padding_char(p as int)));
    }
    assert(picks@.take(i as int) =~= picks@);
    padding
}

/// Random letters and digits, at least `min` and fewer than `max` of them.
pub fn random_padding(min: usize, max: usize) -> (padding: String)
    requires
        min < max,
    ensures
        min <= padding@.len() < max,
        forall|i: int| 0 <= i < padding@.len() ==> is_padding_char(#[trigger] padding@[i]),
{
    let n: usize = random_below(min, max);
    let mut picks: Vec<usize> = Vec::new();
    while picks.len() < n
        invariant
            picks@.len() <= n,
            forall|j: int| 0 <= j < picks@.len() ==> picks@[j] < 62,
        decreases n - picks@.len(),
    {
        picks.push(random_below(0, 62));
    }
    padding_text(&picks)
}

// ---- transport settings ----

/// QUIC transport settings.
#[derive(Clone, Copy, Debug, PartialEq, Eq, Structural)]
pub struct QuicParams {
    pub stream_receive_window: u64,
    pub receive_window: u64,
    pub send_window: u64,
    pub datagram_receive_buffer: usize,
    pub max_idle_timeout_ms: u32,
    pub keep_alive_secs: u64,
    /// The first congestion window, where the sending rate is configured.
    pub initial_window: Option<u64>,
}

/// The congestion window that sends at `bps` over a round trip of a tenth of a second.
pub open spec fn rate_window(bps: nat) -> nat {
    let w = bps * 100 / 1000 / 8;
    if w < 1024 {
        1024
    } else {
        w
    }
}

/// The transport settings for a client that sends at `up_mbps`.
pub open spec fn params_for(up_mbps: nat) -> QuicParams {
    QuicParams {
        stream_receive_window: QUIC_STREAM_RECEIVE_WINDOW,
        receive_window: QUIC_MAX_CONNECTION_RECEIVE_WINDOW,
        send_window: QUIC_MAX_CONNECTION_RECEIVE_WINDOW,
        datagram_receive_buffer: 2_097_152,
        max_idle_timeout_ms: 30_000,
        keep_alive_secs: 10,
        initial_window: if up_mbps == 0 {
            None
        } else {
            Some(rate_window(up_mbps * 1_000_000) as u64)
        },
    }
}

/// The transport settings for a configuration.
pub fn quic_params(config: &Hysteria2OutboundConfig) -> (params: QuicParams)
    ensures
        params == params_for(config.up_mbps as nat),
{
    let tx: u64 = mbps_to_bps(config.up_mbps);
    let initial_window: Option<u64> = if tx > 0 {
        let w: u64 = tx * 100 / 1000 / 8;
        if w < 1024 {
            Some(1024)
        } else {
            Some(w)
        }
    } else {
        None
    };
    QuicParams {
        stream_receive_window: QUIC_STREAM_RECEIVE_WINDOW,
        receive_window: QUIC_MAX_CONNECTION_RECEIVE_WINDOW,
        send_window: QUIC_MAX_CONNECTION_RECEIVE_WINDOW,
        datagram_receive_buffer: 2_097_152,
        max_idle_timeout_ms: 30_000,
        keep_alive_secs: 10,
        initial_window,
    }
}

// ---- the outbound ----

/// A Hysteria2 client.
pub struct Hy2Outbound<R> {
    pub config: Hysteria2OutboundConfig,
    pub routing_mark: u32,
    pub resolver: Option<R>,
    pub params: QuicParams,
    /// The number of the next UDP session.
    pub udp_session_id: u32,
}

/// The connection that is kept for reuse: the number it is known by and what the server
/// granted.
#[derive(Clone, Copy, Debug, PartialEq, Eq, Structural)]
pub struct CachedConn {
    pub conn: u64,
    pub auth: AuthInfo,
}

/// The numbers of a UDP session and of its packets.
#[derive(Clone, Copy, Debug, PartialEq, Eq, Structural)]
pub struct UdpSession {
    pub session_id: u32,
    pub next_packet: u16,
}

/// Drops the kept connection once it has been closed, and says whether it can serve.
pub fn reuse_connection(cached: &mut Option<CachedConn>, closed: bool) -> (conn: Option<CachedConn>)
    ensures
        conn == if closed {
            None
        } else {
            *old(cached)
        },
        *final(cached) == conn,
{
    if closed {
        *cached = None;
    }
    *cached
}

impl<R> Hy2Outbound<R> {
    pub fn new(config: Hysteria2OutboundConfig) -> (o: Self)
        ensures
            o.config == config,
            o.routing_mark == 0,
            o.resolver is None,
            o.udp_session_id == 0,
            o.params == params_for(config.up_mbps as nat),
    {
        let params: QuicParams = quic_params(&config);
        Hy2Outbound { config, routing_mark: 0, resolver: None, params, udp_session_id: 0 }
    }

    pub fn with_resolver(self, resolver: R) -> (o: Self)
        ensures
            o == (Hy2Outbound { resolver: Some(resolver), ..self }),
    {
        let mut o = self;
        o.resolver = Some(resolver);
        o
    }

    pub fn with_mark(self, mark: u32) -> (o: Self)
        ensures
            o == (Hy2Outbound { routing_mark: mark, ..self }),
    {
        let mut o = self;
        o.routing_mark = mark;
        o
    }

    /// The authentication request, with the given padding.
    pub fn auth_request(&self, padding: &str) -> (frame: Vec<u8>)
        ensures
            frame@ == h3_frame(
                H3_FRAME_HEADERS,
                literal_block(
                    auth_headers(
                        self.config.password@,
                        (self.config.down_mbps * 1_000_000) as nat,
                        padding@,
                    ),
                ),
            ),
    {
        auth_request(&self.config.password, mbps_to_bps(self.config.down_mbps), padding)
    }

    /// What a frame of the authentication response means for this client.
    pub fn on_auth_frame(&self, frame_type: u64, payload: &[u8]) -> (step: AuthStep)
        ensures
            step == auth_step(frame_type, payload@, (self.config.up_mbps * 1_000_000) as nat),
    {
        auth_on_frame(frame_type, payload, mbps_to_bps(self.config.up_mbps))
    }

    /// Opens a UDP session, unless the server does not relay UDP. Session numbers wrap round.
    pub fn open_udp(&mut self, auth: &AuthInfo) -> (session: Option<UdpSession>)
        ensures
            auth.udp_enabled ==> session == Some(
                UdpSession { session_id: old(self).udp_session_id, next_packet: 0 },
            ) && final(self).udp_session_id as nat == (old(self).udp_session_id + 1)
                % 0x1_0000_0000,
            !auth.udp_enabled ==> session is None && final(self).udp_session_id == old(
                self,
            ).udp_session_id,
            final(self).config == old(self).config,
            final(self).routing_mark == old(self).routing_mark,
            final(self).resolver == old(self).resolver,
            final(self).params == old(self).params,
    {
        if !auth.udp_enabled {
            return None;
        }
        let session_id: u32 = self.udp_session_id;
        self.udp_session_id = session_id.wrapping_add(1);
        Some(UdpSession { session_id, next_packet: 0 })
    }
}

impl UdpSession {
    /// The datagrams of the next packet of the session.
    pub fn send(&mut self, target: &Target, data: &[u8]) -> (out: Vec<Vec<u8>>)
        ensures
            exists|addr: Seq<char>| #[trigger]
                is_target_text(*target, addr) && out@.map_values(|d: Vec<u8>| d@) == udp_fragments(
                    old(self).session_id,
                    old(self).next_packet,
                    encode_utf8(addr),
                    data@,
                ),
            final(self).session_id == old(self).session_id,
            final(self).next_packet as nat == (old(self).next_packet + 1) % 0x1_0000,
    {
        let addr: String = target_to_addr_str(target);
        let out: Vec<Vec<u8>> = split_udp(self.session_id, self.next_packet, &addr, data);
        self.next_packet = self.next_packet.wrapping_add(1);
        out
    }
}

} // verus!
