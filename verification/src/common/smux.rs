//! Many streams over one connection, after the smux protocol.
//!
//! The session and the pool decide; the caller owns the connections, writes the frames it is
//! given, and hands over the frames and events that come.

use crate::config::MultiplexConfig;
use crate::wire::{
    byte_range, copy_range, le_bytes, le_round_trip, le_value, put_bytes, put_le, read_le,
};
use std::collections::HashSet;
use vstd::prelude::*;
use vstd::std_specs::hash::group_hash_axioms;

verus! {

broadcast use group_hash_axioms;

pub const SMUX_V1: u8 = 1;

pub const SMUX_V2: u8 = 2;

pub const CMD_SYN: u8 = 0;

pub const CMD_FIN: u8 = 1;

pub const CMD_RST: u8 = 2;

pub const CMD_NOP: u8 = 3;

pub const CMD_PSH: u8 = 0xff;

pub const HEADER_SIZE_V1: usize = 8;

pub const DEFAULT_MAX_FRAME: usize = 65535;

pub const KEEPALIVE_INTERVAL_SECS: u64 = 10;

/// Settings of a session.
#[derive(Clone, Copy, Debug, PartialEq, Eq, Structural)]
pub struct SmuxConfig {
    pub version: u8,
    pub max_frame_size: usize,
    pub keep_alive_secs: u64,
    pub padding: bool,
}

/// The settings of a session, but for padding.
pub open spec fn usual_config(padding: bool) -> SmuxConfig {
    SmuxConfig {
        version: SMUX_V1,
        max_frame_size: DEFAULT_MAX_FRAME,
        keep_alive_secs: KEEPALIVE_INTERVAL_SECS,
        padding,
    }
}

impl Default for SmuxConfig {
    fn default() -> (c: SmuxConfig)
        ensures
            c == usual_config(false),
    {
        SmuxConfig {
            version: SMUX_V1,
            max_frame_size: DEFAULT_MAX_FRAME,
            keep_alive_secs: KEEPALIVE_INTERVAL_SECS,
            padding: false,
        }
    }
}

impl From<&MultiplexConfig> for SmuxConfig {
    /// Every protocol setting leads to the first version.
    fn from(mc: &MultiplexConfig) -> (c: SmuxConfig) {
        SmuxConfig {
            version: SMUX_V1,
            max_frame_size: DEFAULT_MAX_FRAME,
            keep_alive_secs: KEEPALIVE_INTERVAL_SECS,
            padding: mc.padding,
        }
    }
}

impl vstd::std_specs::convert::FromSpecImpl<&MultiplexConfig> for SmuxConfig {
    open spec fn obeys_from_spec() -> bool {
        true
    }

    open spec fn from_spec(mc: &MultiplexConfig) -> SmuxConfig {
        usual_config(mc.padding)
    }
}

// ---- frames ----

/// A frame.
pub struct Frame {
    pub version: u8,
    pub cmd: u8,
    pub stream_id: u32,
    pub data: Vec<u8>,
    /// How much the other side has used up; only data frames of the second version carry it.
    pub consumed: u32,
}

/// Whether a frame carries the `consumed` field.
pub open spec fn has_consumed(version: u8, cmd: u8) -> bool {
    version == SMUX_V2 && cmd == CMD_PSH
}

/// A frame on the wire.
pub open spec fn frame_bytes(version: u8, cmd: u8, stream_id: u32, consumed: u32, data: Seq<u8>) -> Seq<
    u8,
> {
    if has_consumed(version, cmd) {
        seq![version, cmd] + le_bytes(data.len() + 4, 2) + le_bytes(stream_id as nat, 4) + le_bytes(
            consumed as nat,
            4,
        ) + data
    } else {
        seq![version, cmd] + le_bytes(data.len(), 2) + le_bytes(stream_id as nat, 4) + data
    }
}

/// A frame at the start of what has been read.
pub enum FrameProgress {
    /// At least this many bytes in all are needed.
    Need(usize),
    /// A whole frame, and where it ends.
    Frame(Frame, usize),
}

/// Where the frame at the start of `s` ends: `Err` tells how much is needed to know more.
pub open spec fn frame_end(s: Seq<u8>) -> Result<nat, nat> {
    if s.len() < HEADER_SIZE_V1 {
        Err(HEADER_SIZE_V1 as nat)
    } else {
        let n = HEADER_SIZE_V1 as nat + le_value(s.subrange(2, 4));
        if s.len() < n {
            Err(n)
        } else {
            Ok(n)
        }
    }
}

/// Whether the frame at the start of `s` has a `consumed` field. One that is too short for it
/// has none.
pub open spec fn shows_consumed(s: Seq<u8>) -> bool {
    has_consumed(s[0], s[1]) && le_value(s.subrange(2, 4)) >= 4
}

/// `f` is the frame at the start of `s`, which ends at `end`.
pub open spec fn is_frame(f: Frame, s: Seq<u8>, end: nat) -> bool {
    &&& f.version == s[0]
    &&& f.cmd == s[1]
    &&& f.stream_id as nat == le_value(s.subrange(4, 8))
    &&& if shows_consumed(s) {
        f.consumed as nat == le_value(s.subrange(8, 12)) && f.data@ == s.subrange(12, end as int)
    } else {
        f.consumed == 0 && f.data@ == s.subrange(8, end as int)
    }
}

/// A frame is read back as it was written, whatever follows it, as long as its length fits in
/// two bytes.
pub proof fn frame_round_trip(
    version: u8,
    cmd: u8,
    stream_id: u32,
    consumed: u32,
    data: Seq<u8>,
    rest: Seq<u8>,
    f: Frame,
)
    requires
        data.len() + (if has_consumed(version, cmd) {
            4int
        } else {
            0
        }) <= 65535,
        frame_end(frame_bytes(version, cmd, stream_id, consumed, data) + rest) matches Ok(n)
            ==> is_frame(f, frame_bytes(version, cmd, stream_id, consumed, data) + rest, n),
    ensures
        frame_end(frame_bytes(version, cmd, stream_id, consumed, data) + rest) == Ok::<nat, nat>(
            frame_bytes(version, cmd, stream_id, consumed, data).len(),
        ),
        f.version == version,
        f.cmd == cmd,
        f.stream_id == stream_id,
        f.consumed == if has_consumed(version, cmd) {
            consumed
        } else {
            0
        },
        f.data@ == data,
{
    let b = frame_bytes(version, cmd, stream_id, consumed, data);
    let s = b + rest;
    let len = if has_consumed(version, cmd) {
        data.len() + 4
    } else {
        data.len()
    };
    assert(byte_range(2) == 65536 && byte_range(4) == 0x1_0000_0000) by {
        reveal_with_fuel(byte_range, 5);
    }
    le_round_trip(len, 2);
    le_round_trip(stream_id as nat, 4);
    le_round_trip(consumed as nat, 4);
    assert(s.subrange(2, 4) =~= le_bytes(len, 2));
    assert(s.subrange(4, 8) =~= le_bytes(stream_id as nat, 4));
    assert(s[0] == version && s[1] == cmd);
    assert(b.len() == 8 + len);
    if has_consumed(version, cmd) {
        assert(s.subrange(8, 12) =~= le_bytes(consumed as nat, 4));
        assert(s.subrange(12, b.len() as int) =~= data);
    } else {
        assert(s.subrange(8, b.len() as int) =~= data);
    }
}

impl Frame {
    /// The frame on the wire. Of the length, two bytes are sent.
    pub fn encode(&self) -> (out: Vec<u8>)
        ensures
            out@ == frame_bytes(
                self.version,
                self.cmd,
                self.stream_id,
                self.consumed,
                self.data@,
            ),
    {
        let wide: bool = self.version == SMUX_V2 && self.cmd == CMD_PSH;
        let low: u64 = (self.data.len() % 65536) as u64;
        let len: u64 = if wide {
            low + 4
        } else {
            low
        };
        let mut out: Vec<u8> = vec![self.version, self.cmd];
        put_le(&mut out, len, 2);
        proof {
            reveal_with_fuel(le_bytes, 3);
            if wide {
                assert(le_bytes(len as nat, 2) =~= le_bytes(self.data@.len() + 4, 2));
            } else {
                assert(le_bytes(len as nat, 2) =~= le_bytes(self.data@.len(), 2));
            }
        }
        put_le(&mut out, self.stream_id as u64, 4);
        if wide {
            put_le(&mut out, self.consumed as u64, 4);
        }
        put_bytes(&mut out, &self.data);
        assert(out@ =~= frame_bytes(
            self.version,
            self.cmd,
            self.stream_id,
            self.consumed,
            self.data@,
        ));
        out
    }
}

/// Looks for a whole frame at the start of what has been read.
pub fn read_frame(buf: &[u8]) -> (p: FrameProgress)
    ensures
        match (p, frame_end(buf@)) {
            (FrameProgress::Need(a), Err(b)) => a as nat == b,
            (FrameProgress::Frame(f, a), Ok(b)) => a as nat == b && is_frame(f, buf@, b) && a
                <= buf@.len(),
            _ => false,
        },
{
    if buf.len() < HEADER_SIZE_V1 {
        return FrameProgress::Need(HEADER_SIZE_V1);
    }
    proof {
        assert(byte_range(2) == 65536 && byte_range(4) == 0x1_0000_0000) by {
            reveal_with_fuel(byte_range, 5);
        }
    }
    let len: usize = read_le(buf, 2, 2) as usize;
    let end: usize = HEADER_SIZE_V1 + len;
    if buf.len() < end {
        return FrameProgress::Need(end);
    }
    let version: u8 = buf[0];
    let cmd: u8 = buf[1];
    let stream_id: u32 = read_le(buf, 4, 4) as u32;
    let (consumed, from): (u32, usize) = if version == SMUX_V2 && cmd == CMD_PSH && len >= 4 {
        (read_le(buf, 8, 4) as u32, 12)
    } else {
        (0, 8)
    };
    let data: Vec<u8> = copy_range(buf, from, end);
    FrameProgress::Frame(Frame { version, cmd, stream_id, data, consumed }, end)
}

// ---- the session ----

/// The streams of one connection.
pub struct SmuxSession {
    pub version: u8,
    pub next_id: u32,
    pub streams: HashSet<u32>,
}

/// What a frame means.
pub enum FrameAction {
    /// Hand the data to a stream.
    Deliver(u32, Vec<u8>),
    /// A stream is over.
    Close(u32),
    /// Nothing.
    Ignore,
    /// The command is unknown.
    Unknown(u8),
}

impl SmuxSession {
    /// The client's streams have odd numbers.
    pub open spec fn wf(&self) -> bool {
        self.next_id % 2 == 1
    }

    pub fn new(cfg: &SmuxConfig) -> (s: SmuxSession)
        ensures
            s.wf(),
            s.version == cfg.version,
            s.next_id == 1,
            s.streams@ == Set::<u32>::empty(),
    {
        SmuxSession { version: cfg.version, next_id: 1, streams: HashSet::new() }
    }

    fn control(&self, cmd: u8, stream_id: u32) -> (out: Vec<u8>)
        ensures
            out@ == frame_bytes(self.version, cmd, stream_id, 0, Seq::empty()),
    {
        let data: Vec<u8> = Vec::new();
        assert(data@ =~= Seq::empty());
        let f = Frame { version: self.version, cmd, stream_id, data, consumed: 0 };
        f.encode()
    }

    /// Takes a number for a new stream: the number, and the frame that announces it. Numbers go
    /// up by two and wrap round.
    pub fn open_stream(&mut self) -> (opened: (u32, Vec<u8>))
        requires
            old(self).wf(),
        ensures
            final(self).wf(),
            moved(SessionMove::Open(opened.0, opened.1@), *old(self), *final(self)),
            final(self).streams@ == old(self).streams@,
    {
        let sid: u32 = self.next_id;
        let syn: Vec<u8> = self.control(CMD_SYN, sid);
        self.next_id = sid.wrapping_add(2);
        (sid, syn)
    }

    /// Notes that a stream has been announced, so that its data is handed on.
    pub fn register(&mut self, sid: u32)
        ensures
            final(self).streams@ == old(self).streams@.insert(sid),
            moved(SessionMove::Quiet, *old(self), *final(self)),
    {
        self.streams.insert(sid);
    }

    /// Forgets a stream, for instance where its data cannot be sent.
    pub fn remove(&mut self, sid: u32)
        ensures
            final(self).streams@ == old(self).streams@.remove(sid),
            moved(SessionMove::Quiet, *old(self), *final(self)),
    {
        self.streams.remove(&sid);
    }

    /// Takes a frame that came in. Data of an unknown stream is dropped; the end of a stream
    /// makes it unknown.
    pub fn on_frame(&mut self, frame: Frame) -> (action: FrameAction)
        ensures
            match action {
                FrameAction::Deliver(sid, data) => frame.cmd == CMD_PSH && sid == frame.stream_id
                    && data@ == frame.data@ && old(self).streams@.contains(sid),
                FrameAction::Close(sid) => (frame.cmd == CMD_FIN || frame.cmd == CMD_RST) && sid
                    == frame.stream_id,
                FrameAction::Ignore => frame.cmd == CMD_NOP || frame.cmd == CMD_SYN || (frame.cmd
                    == CMD_PSH && !old(self).streams@.contains(frame.stream_id)),
                FrameAction::Unknown(c) => c == frame.cmd && c != CMD_PSH && c != CMD_FIN && c
                    != CMD_RST && c != CMD_NOP && c != CMD_SYN,
            },
            final(self).streams@ == if frame.cmd == CMD_FIN || frame.cmd == CMD_RST {
                old(self).streams@.remove(frame.stream_id)
            } else {
                old(self).streams@
            },
            moved(SessionMove::Quiet, *old(self), *final(self)),
    {
        if frame.cmd == CMD_PSH {
            if self.streams.contains(&frame.stream_id) {
                return FrameAction::Deliver(frame.stream_id, frame.data);
            }
            return FrameAction::Ignore;
        }
        if frame.cmd == CMD_FIN || frame.cmd == CMD_RST {
            self.streams.remove(&frame.stream_id);
            return FrameAction::Close(frame.stream_id);
        }
        if frame.cmd == CMD_NOP || frame.cmd == CMD_SYN {
            return FrameAction::Ignore;
        }
        FrameAction::Unknown(frame.cmd)
    }

    /// The frame that sends data on a stream.
    pub fn data_frame(&self, sid: u32, data: &[u8]) -> (out: Vec<u8>)
        ensures
            out@ == frame_bytes(self.version, CMD_PSH, sid, 0, data@),
            moved(SessionMove::Write(sid, data@, out@), *self, *self),
    {
        let copy: Vec<u8> = copy_range(data, 0, data.len());
        assert(copy@ =~= data@);
        let f = Frame { version: self.version, cmd: CMD_PSH, stream_id: sid, data: copy, consumed: 0 };
        f.encode()
    }

    /// The frame that keeps the connection alive.
    pub fn keepalive_frame(&self) -> (out: Vec<u8>)
        ensures
            out@ == frame_bytes(self.version, CMD_NOP, 0, 0, Seq::empty()),
            moved(SessionMove::KeepAlive(out@), *self, *self),
    {
        self.control(CMD_NOP, 0)
    }
}

/// The number of the `k`-th stream that a session opens, counted from zero.
pub open spec fn kth_stream(k: nat) -> nat {
    (1 + 2 * k) % 0x1_0000_0000
}

/// The numbers of the streams of a session are odd, and no two of the first 2^31 streams share
/// one.
pub proof fn stream_numbers(i: nat, j: nat)
    requires
        i < j < 0x8000_0000,
    ensures
        kth_stream(i) % 2 == 1,
        kth_stream(i) != kth_stream(j),
        kth_stream(i + 1) == (kth_stream(i) + 2) % 0x1_0000_0000,
{
}

/// Something that happens in a session, with the frame that is sent for it.
pub enum SessionMove {
    /// A stream is opened, with this number.
    Open(u32, Seq<u8>),
    /// Data is written on a stream.
    Write(u32, Seq<u8>, Seq<u8>),
    KeepAlive(Seq<u8>),
    /// Something for which nothing is sent: a frame comes in, a stream is noted or forgotten.
    Quiet,
}

/// The move leads from one state of a session to the other.
pub open spec fn moved(m: SessionMove, before: SmuxSession, after: SmuxSession) -> bool {
    &&& after.version == before.version
    &&& match m {
        SessionMove::Open(sid, frame) => sid == before.next_id && frame == frame_bytes(
            before.version,
            CMD_SYN,
            sid,
            0,
            Seq::empty(),
        ) && after.next_id as nat == (before.next_id + 2) % 0x1_0000_0000,
        SessionMove::Write(sid, data, frame) => frame == frame_bytes(
            before.version,
            CMD_PSH,
            sid,
            0,
            data,
        ) && after.next_id == before.next_id,
        SessionMove::KeepAlive(frame) => frame == frame_bytes(
            before.version,
            CMD_NOP,
            0,
            0,
            Seq::empty(),
        ) && after.next_id == before.next_id,
        SessionMove::Quiet => after.next_id == before.next_id,
    }
}

/// The moves lead from the first of the states to the last. Data is written only on streams that
/// have been handed out: those whose numbers have been given away.
pub open spec fn led(states: Seq<SmuxSession>, moves: Seq<SessionMove>) -> bool {
    &&& states.len() == moves.len() + 1
    &&& forall|i: int| 0 <= i < moves.len() ==> #[trigger] moved(moves[i], states[i], states[i + 1])
    &&& forall|i: int|
        0 <= i < moves.len() ==> ((#[trigger] moves[i]) matches SessionMove::Write(sid, _, _) ==> sid
            % 2 == 1 && sid < states[i].next_id)
}

/// How many of the first `n` moves open a stream.
pub open spec fn opens(moves: Seq<SessionMove>, n: nat) -> nat
    decreases n,
{
    if n == 0 {
        0
    } else {
        opens(moves, (n - 1) as nat) + if moves[n - 1] is Open {
            1nat
        } else {
            0
        }
    }
}

/// The frame that is sent for a move.
pub open spec fn frame_of(m: SessionMove) -> Option<Seq<u8>> {
    match m {
        SessionMove::Open(_, frame) => Some(frame),
        SessionMove::Write(_, _, frame) => Some(frame),
        SessionMove::KeepAlive(frame) => Some(frame),
        SessionMove::Quiet => None,
    }
}

/// The frames of the first `n` moves, in the order in which they are sent.
pub open spec fn sent(moves: Seq<SessionMove>, n: nat) -> Seq<Seq<u8>>
    decreases n,
{
    if n == 0 {
        Seq::empty()
    } else {
        let before = sent(moves, (n - 1) as nat);
        match frame_of(moves[n - 1]) {
            Some(frame) => before.push(frame),
            None => before,
        }
    }
}

proof fn sent_grows(moves: Seq<SessionMove>, i: nat, n: nat)
    requires
        i <= n,
    ensures
        sent(moves, i).len() <= sent(moves, n).len(),
        sent(moves, n).take(sent(moves, i).len() as int) == sent(moves, i),
    decreases n,
{
    let early = sent(moves, i);
    if i < n {
        sent_grows(moves, i, (n - 1) as nat);
        let late = sent(moves, n);
        assert(late.take(early.len() as int) =~= sent(moves, (n - 1) as nat).take(
            early.len() as int,
        ));
    } else {
        assert(early.take(early.len() as int) =~= early);
    }
}

proof fn opens_grow(moves: Seq<SessionMove>, i: nat, j: nat)
    requires
        i <= j,
    ensures
        opens(moves, i) <= opens(moves, j),
    decreases j,
{
    if i < j {
        opens_grow(moves, i, (j - 1) as nat);
    }
}

proof fn numbers_so_far(states: Seq<SmuxSession>, moves: Seq<SessionMove>, n: nat)
    requires
        led(states, moves),
        states[0].next_id == 1,
        n <= moves.len(),
        opens(moves, moves.len()) < 0x8000_0000,
    ensures
        states[n as int].next_id == 1 + 2 * opens(moves, n),
        states[n as int].version == states[0].version,
    decreases n,
{
    if n > 0 {
        numbers_so_far(states, moves, (n - 1) as nat);
        opens_grow(moves, n, moves.len());
        assert(moved(moves[n - 1], states[n - 1], states[n - 1 + 1]));
    }
}

/// Each number that has been given away was announced.
proof fn given_away(states: Seq<SmuxSession>, moves: Seq<SessionMove>, n: nat, sid: u32) -> (j: int)
    requires
        led(states, moves),
        states[0].next_id == 1,
        n <= moves.len(),
        opens(moves, moves.len()) < 0x8000_0000,
        sid % 2 == 1,
        sid < states[n as int].next_id,
    ensures
        0 <= j < n,
        moves[j] matches SessionMove::Open(s, _) && s == sid,
    decreases n,
{
    numbers_so_far(states, moves, n);
    if n == 0 {
        0
    } else {
        numbers_so_far(states, moves, (n - 1) as nat);
        assert(moved(moves[n - 1], states[n - 1], states[n - 1 + 1]));
        if sid < states[n - 1].next_id {
            given_away(states, moves, (n - 1) as nat, sid)
        } else {
            n - 1
        }
    }
}

/// In a session that opens fewer than 2^31 streams, the streams have the odd numbers in order, and
/// none is given twice. Each is announced by a frame of its own, which is sent before any of its
/// data. Each write leaves as one data frame under the number of its stream, and the frames are
/// sent in the order of what they are sent for.
pub proof fn session_is_in_order(
    states: Seq<SmuxSession>,
    moves: Seq<SessionMove>,
    i: int,
)
    requires
        led(states, moves),
        states[0].next_id == 1,
        opens(moves, moves.len()) < 0x8000_0000,
        0 <= i < moves.len(),
    ensures
        match moves[i] {
            SessionMove::Open(sid, frame) => sid == 2 * opens(moves, i as nat) + 1 && frame
                == frame_bytes(states[0].version, CMD_SYN, sid, 0, Seq::empty()) && forall|j: int|
                0 <= j < i ==> ((#[trigger] moves[j]) matches SessionMove::Open(s, _) ==> s < sid),
            SessionMove::Write(sid, data, frame) => frame == frame_bytes(
                states[0].version,
                CMD_PSH,
                sid,
                0,
                data,
            ) && exists|j: int|
                0 <= j < i && ((#[trigger] moves[j]) matches SessionMove::Open(s, _) && s == sid)
                    && sent(moves, j as nat).len() < sent(moves, i as nat).len(),
            SessionMove::KeepAlive(frame) => frame == frame_bytes(
                states[0].version,
                CMD_NOP,
                0,
                0,
                Seq::empty(),
            ),
            SessionMove::Quiet => true,
        },
        frame_of(moves[i]) matches Some(frame) ==> ({
            let at = sent(moves, i as nat).len() as int;
            let all = sent(moves, moves.len());
            at < all.len() && all[at] == frame
        }),
{
    numbers_so_far(states, moves, i as nat);
    sent_grows(moves, (i + 1) as nat, moves.len());
    if frame_of(moves[i]) is Some {
        let at = sent(moves, i as nat).len() as int;
        let next = sent(moves, (i + 1) as nat);
        assert(sent(moves, moves.len()).take(next.len() as int)[at] == next[at]);
    }
    assert(moved(moves[i], states[i], states[i + 1]));
    match moves[i] {
        SessionMove::Open(sid, _) => {
            assert forall|j: int| 0 <= j < i implies ((
            #[trigger] moves[j]) matches SessionMove::Open(s, _) ==> s < sid) by {
                numbers_so_far(states, moves, j as nat);
                assert(moved(moves[j], states[j], states[j + 1]));
                opens_grow(moves, (j + 1) as nat, i as nat);
            }
        },
        SessionMove::Write(sid, _, _) => {
            let j = given_away(states, moves, i as nat, sid);
            assert(moves[j] is Open);
            sent_grows(moves, (j + 1) as nat, i as nat);
        },
        _ => {},
    }
}

// ---- the pool ----

/// Connections with the number of streams that each has carried.
pub struct MultiplexPool {
    pub max_streams: usize,
    pub max_connections: usize,
    pub counts: Vec<usize>,
}

/// Where the next stream goes.
#[derive(Clone, Copy, Debug, PartialEq, Eq, Structural)]
pub enum PoolPick {
    /// To the connection at that place.
    Reuse(usize),
    /// To a new connection.
    Dial,
    /// Nowhere.
    Full,
}

/// The place of the first connection that may carry another stream.
pub open spec fn first_free(counts: Seq<usize>, max: nat) -> Option<int>
    decreases counts.len(),
{
    if counts.len() == 0 {
        None
    } else {
        match first_free(counts.drop_last(), max) {
            Some(i) => Some(i),
            None => if counts.last() < max {
                Some(counts.len() - 1)
            } else {
                None
            },
        }
    }
}

/// A limit of zero is none.
pub open spec fn limit_of(n: usize) -> usize {
    if n == 0 {
        usize::MAX
    } else {
        n
    }
}

impl MultiplexPool {
    /// No connection carries more streams than allowed, and there are no more connections than
    /// allowed.
    pub open spec fn wf(&self) -> bool {
        &&& self.max_streams > 0
        &&& self.max_connections > 0
        &&& self.counts@.len() <= self.max_connections
        &&& forall|i: int|
            0 <= i < self.counts@.len() ==> 1 <= #[trigger] self.counts@[i] <= self.max_streams
    }

    pub fn new(cfg: &MultiplexConfig) -> (p: MultiplexPool)
        ensures
            p.wf(),
            p.max_streams == limit_of(cfg.max_streams),
            p.max_connections == limit_of(cfg.max_connections),
            p.counts@.len() == 0,
    {
        let max_streams: usize = if cfg.max_streams == 0 {
            usize::MAX
        } else {
            cfg.max_streams
        };
        let max_connections: usize = if cfg.max_connections == 0 {
            usize::MAX
        } else {
            cfg.max_connections
        };
        MultiplexPool { max_streams, max_connections, counts: Vec::new() }
    }

    /// Where the next stream goes: to the first connection with room, else to a new one, as
    /// long as there may be one.
    pub fn acquire(&self) -> (pick: PoolPick)
        requires
            self.wf(),
        ensures
            match (pick, first_free(self.counts@, self.max_streams as nat)) {
                (PoolPick::Reuse(i), Some(j)) => i == j,
                (PoolPick::Dial, None) => self.counts@.len() < self.max_connections,
                (PoolPick::Full, None) => self.counts@.len() == self.max_connections,
                _ => false,
            },
            pick matches PoolPick::Reuse(i) ==> i < self.counts@.len() && self.counts@[i as int]
                < self.max_streams,
    {
        let mut i: usize = 0;
        assert(self.counts@.take(0) =~= Seq::empty());
        while i < self.counts.len()
            invariant
                i <= self.counts@.len(),
                first_free(self.counts@.take(i as int), self.max_streams as nat) is None,
            decreases self.counts@.len() - i,
        {
            proof {
                assert(self.counts@.take(i + 1).drop_last() =~= self.counts@.take(i as int));
                assert(self.counts@.take(i + 1).last() == self.counts@[i as int]);
            }
            if self.counts[i] < self.max_streams {
                proof {
                    first_stays(self.counts@, self.max_streams as nat, i + 1);
                }
                return PoolPick::Reuse(i);
            }
            i += 1;
        }
        assert(self.counts@.take(i as int) =~= self.counts@);
        if self.counts.len() < self.max_connections {
            PoolPick::Dial
        } else {
            PoolPick::Full
        }
    }

    /// Notes that a stream was opened where `acquire` said.
    pub fn opened(&mut self, pick: PoolPick)
        requires
            old(self).wf(),
            pick matches PoolPick::Reuse(i) ==> i < old(self).counts@.len() && old(
                self,
            ).counts@[i as int] < old(self).max_streams,
            pick == PoolPick::Dial ==> old(self).counts@.len() < old(self).max_connections,
        ensures
            final(self).wf(),
            final(self).max_streams == old(self).max_streams,
            final(self).max_connections == old(self).max_connections,
            final(self).counts@ == match pick {
                PoolPick::Reuse(i) => old(self).counts@.update(
                    i as int,
                    (old(self).counts@[i as int] + 1) as usize,
                ),
                PoolPick::Dial => old(self).counts@.push(1),
                PoolPick::Full => old(self).counts@,
            },
    {
        match pick {
            PoolPick::Reuse(i) => {
                let n: usize = self.counts[i];
                self.counts[i] = n + 1;
            },
            PoolPick::Dial => {
                self.counts.push(1);
            },
            PoolPick::Full => {},
        }
    }
}

proof fn first_stays(counts: Seq<usize>, max: nat, n: int)
    requires
        0 <= n <= counts.len(),
        first_free(counts.take(n), max) is Some,
    ensures
        first_free(counts, max) == first_free(counts.take(n), max),
    decreases counts.len() - n,
{
    if n < counts.len() {
        assert(counts.take(n + 1).drop_last() =~= counts.take(n));
        first_stays(counts, max, n + 1);
    } else {
        assert(counts.take(n) =~= counts);
    }
}

/// The pool refuses a stream only when it has as many connections as it may have and each
/// carries as many streams as it may carry.
pub proof fn full_pool_is_full(counts: Seq<usize>, max: nat)
    requires
        first_free(counts, max) is None,
    ensures
        forall|i: int| 0 <= i < counts.len() ==> #[trigger] counts[i] >= max,
    decreases counts.len(),
{
    if counts.len() > 0 {
        full_pool_is_full(counts.drop_last(), max);
        assert forall|i: int| 0 <= i < counts.len() implies #[trigger] counts[i] >= max by {
            if i < counts.len() - 1 {
                assert(counts[i] == counts.drop_last()[i]);
            }
        }
    }
}

} // verus!
