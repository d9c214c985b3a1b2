//! Many streams over one connection: AnyTLS and smux.

use crate::anytls::{
    after_frame, client_settings, expired, expired_seqs, frame_bytes as anytls_frame, frame_head,
    kept, line_version, may_go, newest_open, quiet_end, reads_data, received, settings_version,
    smaller, to_close, without, AnyTlsSession, FrameHead, Idle, RecvAction, CMD_ALERT, CMD_FIN,
    CMD_HEART_REQUEST, CMD_HEART_RESPONSE, CMD_PSH, CMD_SERVER_SETTINGS, CMD_SETTINGS, CMD_SYN,
    CMD_SYNACK, CMD_UPDATE_PADDING, CMD_WASTE, FRAME_HEADER_SIZE,
};
use crate::anytls_outbound::{
    auth_packet, value_or, DEFAULT_CHECK_INTERVAL_MS, DEFAULT_IDLE_TIMEOUT_MS,
};
use crate::common::smux;
use crate::config::MultiplexConfig;
use crate::common::smux::{
    first_free, frame_bytes, frame_end, is_frame, kth_stream, limit_of, moved, usual_config, Frame,
    SessionMove, SmuxConfig, SmuxSession,
};
use crate::crypto::sha256_of;
use crate::encoding::trimmed;
use crate::laws::bytes::{four, low_byte_first, network_order, network_value, two};
use crate::laws::words::parts_are_found;
use crate::text::{first_at, has_part, lossy_text, parsed_number};
use vstd::prelude::*;
use vstd::utf8::{decode_utf8, encode_utf8, valid_utf8};

verus! {

// ---- AnyTLS ----

/// The commands by their numbers.
pub proof fn commands_by_number()
    ensures
        CMD_WASTE == 0,
        CMD_SYN == 1,
        CMD_PSH == 2,
        CMD_FIN == 3,
        CMD_SETTINGS == 4,
        CMD_ALERT == 5,
        CMD_UPDATE_PADDING == 6,
        CMD_SYNACK == 7,
        CMD_HEART_REQUEST == 8,
        CMD_HEART_RESPONSE == 9,
        CMD_SERVER_SETTINGS == 10,
        FRAME_HEADER_SIZE == 7,
        DEFAULT_CHECK_INTERVAL_MS == 30 * 1000,
        DEFAULT_IDLE_TIMEOUT_MS == 60 * 1000,
{
}

/// A frame is its command, its stream in four bytes, the length of its data in two, and the data; a
/// head is read in the same order.
pub proof fn frames_are_read(cmd: u8, sid: u32, data: Seq<u8>, s: Seq<u8>)
    ensures
        anytls_frame(cmd, sid, data) == seq![cmd] + four(sid as nat) + two(data.len()) + data,
        s.len() == 7 ==> frame_head(s).cmd == s[0] && frame_head(s).sid == s[1] * 0x100_0000 + s[2]
            * 0x1_0000 + s[3] * 256 + s[4] && frame_head(s).len == s[5] * 256 + s[6],
{
    network_order(sid as nat);
    network_order(data.len());
    if s.len() == 7 {
        network_value(s.subrange(1, 5));
        network_value(s.subrange(5, 7));
    }
}

/// What a frame of the server does: data, 2, goes to its stream if that is known; an end, 3, and a
/// refusal, 7 with a reason, make the stream unknown; an alert, 5, ends the session; 6 brings a new
/// padding scheme, 8 asks for a sign of life, which is 9, and 10 brings settings. All others do
/// nothing, and data is read behind every head but those of 3, 8 and 9.
pub proof fn frames_of_the_server(
    action: RecvAction,
    new: AnyTlsSession,
    old: AnyTlsSession,
    head: FrameHead,
    data: Seq<u8>,
)
    requires
        received(action, old, head, data),
        after_frame(new, old, head, data),
    ensures
        reads_data(head.cmd) <==> head.cmd != 3 && head.cmd != 8 && head.cmd != 9,
        new.closed <==> old.closed || head.cmd == 5,
        head.cmd == 3 || (head.cmd == 7 && data.len() > 0) ==> new.streams@ == old.streams@.remove(
            head.sid,
        ),
        head.cmd != 3 && head.cmd != 7 ==> new.streams@ == old.streams@,
        head.cmd == 7 && data.len() == 0 ==> new.streams@ == old.streams@ && action is Nothing,
        head.cmd != 10 ==> new.peer_version == old.peer_version,
        head.cmd == 10 && data.len() > 0 && valid_utf8(data) ==> new.peer_version
            == settings_version(decode_utf8(data), old.peer_version as nat),
        new.seq == old.seq,
        new.next_stream_id == old.next_stream_id,
        match action {
            RecvAction::Deliver(sid, d) => head.cmd == 2 && sid == head.sid && d@ == data
                && data.len() > 0 && old.streams@.contains(sid),
            RecvAction::Alert(m) => head.cmd == 5 && (m is None <==> data.len() == 0) && (
            m matches Some(t) ==> t@ == lossy_text(data)),
            RecvAction::UpdatePadding(d) => head.cmd == 6 && d@ == data && data.len() > 0,
            RecvAction::Rejected(sid, t) => head.cmd == 7 && sid == head.sid && t@ == lossy_text(
                data,
            ) && data.len() > 0,
            RecvAction::Reply(f) => head.cmd == 8 && f@ == seq![9u8] + four(head.sid as nat)
                + seq![0u8, 0u8],
            RecvAction::Nothing => head.cmd != 5 && head.cmd != 8 && (head.cmd == 2 ==> data.len()
                == 0 || !old.streams@.contains(head.sid)) && (head.cmd == 6 || head.cmd == 7
                ==> data.len() == 0),
        },
{
    network_order(head.sid as nat);
    network_order(0);
    let none = Seq::<u8>::empty();
    assert(anytls_frame(9, head.sid, none) =~= seq![9u8] + four(head.sid as nat) + seq![0u8, 0u8]);
}

/// The settings of the server are lines, and the last one that starts with v= and has a number up to
/// 255 gives the version.
pub proof fn settings_are_lines(line: Seq<char>, rest: Seq<char>, v: nat)
    requires
        forall|i: int| 0 <= i < line.len() ==> line[i] != '\n',
    ensures
        line_version(line) == if line.len() >= 2 && line[0] == 'v' && line[1] == '=' {
            parsed_number(trimmed(line.skip(2)), 255)
        } else {
            None
        },
        settings_version(line, v) == (match line_version(line) {
            Some(n) => n,
            None => v,
        }),
        settings_version(line + seq!['\n'] + rest, v) == settings_version(
            rest,
            match line_version(line) {
                Some(n) => n,
                None => v,
            },
        ),
{
    let nl = seq!['\n'];
    let s = line + nl + rest;
    let n = line.len() as int;
    parts_are_found(line, nl, 0);
    parts_are_found(s, nl, 0);
    if let Some(i) = first_at(line, nl, 0) {
        assert(line.subrange(i, i + 1)[0] == '\n');
        assert(line[i] == '\n');
    }
    assert(s.subrange(n, n + 1) =~= nl);
    match first_at(s, nl, 0) {
        None => {
            assert(false);
        },
        Some(i) => {
            if i < n {
                assert(s.subrange(i, i + 1)[0] == '\n');
                assert(line[i] == '\n');
            }
            assert(i <= n);
            assert(s.take(n) =~= line);
            assert(s.skip(n + 1) =~= rest);
        },
    }
}

/// The client tells its version, its name and the digest of the padding scheme, in lines.
pub proof fn client_tells_its_settings(md5: Seq<char>)
    ensures
        client_settings(md5) == "v=2"@ + seq!['\n'] + "client=reflex/anytls"@ + seq!['\n']
            + "padding-md5="@ + md5,
{
    reveal_strlit("v=2\nclient=reflex/anytls\npadding-md5=");
    reveal_strlit("v=2");
    reveal_strlit("client=reflex/anytls");
    reveal_strlit("padding-md5=");
    assert(client_settings(md5) =~= "v=2"@ + seq!['\n'] + "client=reflex/anytls"@ + seq!['\n']
        + "padding-md5="@ + md5);
}

/// An error that speaks of an end, of closing or of a reset is a quiet end, and no other is.
pub proof fn quiet_ends(s: Seq<char>)
    ensures
        quiet_end(s) <==> has_part(s, "eof"@) || has_part(s, "EOF"@) || has_part(s, "closed"@)
            || has_part(s, "reset"@),
{
}

/// A new connection starts with the digest of the password and the padding behind its length.
pub proof fn connections_start(password: Seq<char>, padding: Seq<u8>, v: Option<u64>, other: u64)
    ensures
        auth_packet(password, padding) == sha256_of(encode_utf8(password)) + two(padding.len())
            + padding,
        v is None ==> value_or(v, other) == other,
        v matches Some(x) ==> value_or(v, other) == x,
{
    network_order(padding.len());
}

/// The session that is taken is the newest that is not closed.
pub proof fn newest_is_taken(idle: Seq<Idle>, closed: Seq<u64>)
    ensures
        match newest_open(idle, closed) {
            Some(i) => 0 <= i < idle.len() && !closed.contains(idle[i].seq) && forall|j: int|
                i < j < idle.len() ==> closed.contains((#[trigger] idle[j]).seq),
            None => forall|j: int|
                0 <= j < idle.len() ==> closed.contains((#[trigger] idle[j]).seq),
        },
    decreases idle.len(),
{
    if idle.len() > 0 && closed.contains(idle.last().seq) {
        let front = idle.drop_last();
        newest_is_taken(front, closed);
        assert forall|j: int|
            0 <= j < idle.len() && (newest_open(front, closed) matches Some(i) ==> i < j) implies
            closed.contains((#[trigger] idle[j]).seq) by {
            if j < front.len() {
                assert(front[j] == idle[j]);
            }
        }
    }
}

/// A session is put back before the first whose number is not smaller.
pub proof fn sessions_stay_in_order(idle: Seq<Idle>, seq: u64)
    ensures
        smaller(idle, seq) <= idle.len(),
        forall|i: int| 0 <= i < smaller(idle, seq) ==> (#[trigger] idle[i]).seq < seq,
        smaller(idle, seq) < idle.len() ==> idle[smaller(idle, seq) as int].seq >= seq,
    decreases idle.len(),
{
    if idle.len() > 0 && idle[0].seq < seq {
        let rest = idle.skip(1);
        sessions_stay_in_order(rest, seq);
        assert forall|i: int| 0 <= i < smaller(idle, seq) implies (#[trigger] idle[i]).seq
            < seq by {
            if i > 0 {
                assert(rest[i - 1] == idle[i]);
            }
        }
    }
}

/// Forgetting a session removes those of its number and leaves the others in order.
pub proof fn forgotten_sessions(idle: Seq<Idle>, seq: u64)
    ensures
        without(idle, seq) == idle.filter(|s: Idle| s.seq != seq),
    decreases idle.len(),
{
    reveal(Seq::filter);
    if idle.len() > 0 {
        forgotten_sessions(idle.drop_last(), seq);
    } else {
        assert(without(idle, seq) =~= idle.filter(|s: Idle| s.seq != seq));
    }
}

/// A session has been idle for too long once more time than the limit has passed, and all but the
/// newest ones that are to stay may go.
pub proof fn sessions_expire(s: Idle, now: u64, timeout: u64, total: nat, min_idle: nat)
    ensures
        expired(s, now, timeout) <==> now > s.since + timeout,
        min_idle <= total ==> may_go(total, min_idle) == total - min_idle,
        min_idle > total ==> may_go(total, min_idle) == 0,
{
}

/// The sessions that are closed are those of the older ones that have been idle for too long.
pub proof fn expired_sessions_are_closed(idle: Seq<Idle>, n: nat, now: u64, timeout: u64)
    requires
        n <= idle.len(),
    ensures
        expired_seqs(idle, n, now, timeout) == idle.take(n as int).filter(
            |s: Idle| now > s.since + timeout,
        ).map_values(|s: Idle| s.seq),
    decreases n,
{
    let p = |s: Idle| now > s.since + timeout;
    let q = |s: Idle| s.seq;
    reveal(Seq::filter);
    let front = idle.take(n as int);
    if n > 0 {
        expired_sessions_are_closed(idle, (n - 1) as nat, now, timeout);
        assert(front.drop_last() =~= idle.take(n - 1));
        assert(front.last() == idle[n - 1]);
    }
    assert(expired_seqs(idle, n, now, timeout) =~= front.filter(p).map_values(q));
}

/// The sessions that stay are all that are not closed, in their order.
pub proof fn other_sessions_stay(idle: Seq<Idle>, n: nat, now: u64, timeout: u64, min_idle: nat)
    requires
        n < idle.len(),
    ensures
        kept(idle, 0, now, timeout, min_idle).len() == 0,
        to_close(idle, idle[n as int].seq, now, timeout, min_idle) ==> kept(
            idle,
            n + 1,
            now,
            timeout,
            min_idle,
        ) == kept(idle, n, now, timeout, min_idle),
        !to_close(idle, idle[n as int].seq, now, timeout, min_idle) ==> kept(
            idle,
            n + 1,
            now,
            timeout,
            min_idle,
        ) == kept(idle, n, now, timeout, min_idle).push(idle[n as int]),
{
}

// ---- smux ----

/// The numbers of smux: the commands, the versions, and the usual settings.
pub proof fn smux_numbers(padding: bool)
    ensures
        smux::CMD_SYN == 0,
        smux::CMD_FIN == 1,
        smux::CMD_RST == 2,
        smux::CMD_NOP == 3,
        smux::CMD_PSH == 255,
        smux::SMUX_V1 == 1,
        smux::SMUX_V2 == 2,
        smux::HEADER_SIZE_V1 == 8,
        usual_config(padding).version == 1,
        usual_config(padding).max_frame_size == 65535,
        usual_config(padding).keep_alive_secs == 10,
        usual_config(padding).padding == padding,
{
}

/// Four bytes, the low one first.
pub open spec fn low_four(n: nat) -> Seq<u8> {
    seq![
        (n % 256) as u8,
        (n / 256 % 256) as u8,
        (n / 0x1_0000 % 256) as u8,
        (n / 0x100_0000 % 256) as u8,
    ]
}

/// Two bytes, the low one first.
pub open spec fn low_two(n: nat) -> Seq<u8> {
    seq![(n % 256) as u8, (n / 256 % 256) as u8]
}

/// A frame is its version, its command, the length of what follows the head in two bytes and its
/// stream in four, all with the low byte first. Data of the second version is preceded by four bytes
/// more, which the length counts.
pub proof fn smux_frames_are_written(
    version: u8,
    cmd: u8,
    sid: u32,
    consumed: u32,
    data: Seq<u8>,
)
    ensures
        version == 2 && cmd == 255 ==> frame_bytes(version, cmd, sid, consumed, data) == seq![
            2u8,
            255u8,
        ] + low_two(data.len() + 4) + low_four(sid as nat) + low_four(consumed as nat) + data,
        !(version == 2 && cmd == 255) ==> frame_bytes(version, cmd, sid, consumed, data) == seq![
            version,
            cmd,
        ] + low_two(data.len()) + low_four(sid as nat) + data,
{
    low_byte_first(data.len(), Seq::empty());
    low_byte_first(data.len() + 4, Seq::empty());
    low_byte_first(sid as nat, Seq::empty());
    low_byte_first(consumed as nat, Seq::empty());
}

/// A frame is read by its bytes.
pub proof fn smux_frames_are_read(f: Frame, s: Seq<u8>)
    requires
        s.len() >= 8,
    ensures
        ({
            let n = s[2] + s[3] * 256;
            let wide = s[0] == 2 && s[1] == 255 && n >= 4;
            &&& s.len() < 8 + n ==> frame_end(s) == Err::<nat, nat>((8 + n) as nat)
            &&& s.len() >= 8 + n ==> frame_end(s) == Ok::<nat, nat>((8 + n) as nat)
            &&& s.len() >= 8 + n && is_frame(f, s, (8 + n) as nat) ==> f.version == s[0] && f.cmd
                == s[1] && f.stream_id == s[4] + s[5] * 256 + s[6] * 0x1_0000 + s[7] * 0x100_0000
                && f.data@ == s.subrange(
                if wide {
                    12
                } else {
                    8
                },
                8 + n,
            ) && (wide ==> f.consumed == s[8] + s[9] * 256 + s[10] * 0x1_0000 + s[11] * 0x100_0000)
                && (!wide ==> f.consumed == 0)
        }),
{
    low_byte_first(0, s.subrange(2, 4));
    low_byte_first(0, s.subrange(4, 8));
    if s.len() >= 12 {
        low_byte_first(0, s.subrange(8, 12));
    }
}

/// What a session sends: a stream is announced with the command 0 and no data, data goes out with
/// the command 255, and a sign of life with the command 3 and no stream. Streams are two apart.
pub proof fn smux_sends(m: SessionMove, before: SmuxSession, after: SmuxSession)
    requires
        moved(m, before, after),
        before.version == 1,
    ensures
        match m {
            SessionMove::Open(sid, frame) => sid == before.next_id && frame == seq![1u8, 0, 0, 0]
                + low_four(sid as nat) && (sid < 0xffff_fffe ==> after.next_id == sid + 2) && (
            sid >= 0xffff_fffe ==> after.next_id == sid + 2 - 0x1_0000_0000),
            SessionMove::Write(sid, data, frame) => frame == seq![1u8, 255] + low_two(data.len())
                + low_four(sid as nat) + data && after.next_id == before.next_id,
            SessionMove::KeepAlive(frame) => frame == seq![1u8, 3, 0, 0, 0, 0, 0, 0]
                && after.next_id == before.next_id,
            SessionMove::Quiet => after.next_id == before.next_id,
        },
{
    let none = Seq::<u8>::empty();
    match m {
        SessionMove::Open(sid, frame) => {
            smux_frames_are_written(1, 0, sid, 0, none);
            assert(frame =~= seq![1u8, 0, 0, 0] + low_four(sid as nat));
        },
        SessionMove::Write(sid, data, _) => {
            smux_frames_are_written(1, 255, sid, 0, data);
        },
        SessionMove::KeepAlive(frame) => {
            smux_frames_are_written(1, 3, 0, 0, none);
            assert(frame =~= seq![1u8, 3, 0, 0, 0, 0, 0, 0]);
        },
        SessionMove::Quiet => {},
    }
}

/// A stream goes to the first connection that carries fewer than it may, and a limit of zero is none.
pub proof fn first_with_room(counts: Seq<usize>, max: nat, n: usize)
    ensures
        match first_free(counts, max) {
            Some(i) => 0 <= i < counts.len() && counts[i] < max && forall|j: int|
                0 <= j < i ==> #[trigger] counts[j] >= max,
            None => forall|j: int| 0 <= j < counts.len() ==> #[trigger] counts[j] >= max,
        },
        limit_of(0) == usize::MAX,
        n > 0 ==> limit_of(n) == n,
    decreases counts.len(),
{
    if counts.len() > 0 {
        let front = counts.drop_last();
        first_with_room(front, max, n);
        assert forall|j: int|
            0 <= j < counts.len() && (first_free(counts, max) matches Some(i) ==> j < i) implies
            #[trigger] counts[j] >= max by {
            if j < front.len() {
                assert(front[j] == counts[j]);
            }
        }
        if let Some(i) = first_free(front, max) {
            assert(front[i] == counts[i]);
            assert forall|j: int| 0 <= j < i implies #[trigger] counts[j] >= max by {
                assert(front[j] == counts[j]);
            }
        }
    }
}

/// Streams have odd numbers, two apart, which start again at one when they are used up.
pub proof fn streams_are_numbered(k: nat, mc: MultiplexConfig)
    ensures
        kth_stream(0) == 1,
        kth_stream(k) < 0xffff_ffff ==> kth_stream(k + 1) == kth_stream(k) + 2,
        kth_stream(k) == 0xffff_ffff ==> kth_stream(k + 1) == 1,
        <SmuxConfig as vstd::std_specs::convert::FromSpec<&MultiplexConfig>>::from_spec(&mc)
            == usual_config(mc.padding),
{
}

} // verus!
