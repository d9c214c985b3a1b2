//! AnyTLS client: the streams of a session, the order of what is written, and the pool of
//! idle sessions.
//!
//! The caller owns the connections and the padding scheme. It hands over frames and messages
//! and does what the answers say.

use crate::encoding::{trim, trimmed};
use crate::text::{
    chars_of, contains_text, find_text, first_at, from_utf8_lossy, has_part, lossy_text,
    parse_number, parsed_number, text_of, utf8_text,
};
use crate::wire::{
    be_bytes, be_bytes_len, be_round_trip, be_value, byte_range, put_bytes, put_len16, put_u32,
    read_u16, read_u32,
};
use std::collections::HashSet;
use vstd::prelude::*;
use vstd::std_specs::hash::group_hash_axioms;
use vstd::utf8::{decode_utf8, encode_utf8, valid_utf8};

verus! {

broadcast use group_hash_axioms;

pub const CMD_WASTE: u8 = 0;

pub const CMD_SYN: u8 = 1;

pub const CMD_PSH: u8 = 2;

pub const CMD_FIN: u8 = 3;

pub const CMD_SETTINGS: u8 = 4;

pub const CMD_ALERT: u8 = 5;

pub const CMD_UPDATE_PADDING: u8 = 6;

pub const CMD_SYNACK: u8 = 7;

pub const CMD_HEART_REQUEST: u8 = 8;

pub const CMD_HEART_RESPONSE: u8 = 9;

pub const CMD_SERVER_SETTINGS: u8 = 10;

pub const FRAME_HEADER_SIZE: usize = 7;

// ---- frames ----

/// A frame on the wire: command, stream, length and data.
pub open spec fn frame_bytes(cmd: u8, sid: u32, data: Seq<u8>) -> Seq<u8> {
    seq![cmd] + be_bytes(sid as nat, 4) + be_bytes(data.len(), 2) + data
}

/// The head of a frame.
#[derive(Clone, Copy, Debug, PartialEq, Eq, Structural)]
pub struct FrameHead {
    pub cmd: u8,
    pub sid: u32,
    pub len: u16,
}

/// The head at the start of `s`.
pub open spec fn frame_head(s: Seq<u8>) -> FrameHead {
    FrameHead {
        cmd: s[0],
        sid: be_value(s.subrange(1, 5)) as u32,
        len: be_value(s.subrange(5, 7)) as u16,
    }
}

/// Makes a frame. Of the length, two bytes are sent.
pub fn build_frame(cmd: u8, sid: u32, data: &[u8]) -> (out: Vec<u8>)
    ensures
        out@ == frame_bytes(cmd, sid, data@),
{
    let mut out: Vec<u8> = vec![cmd];
    put_u32(&mut out, sid);
    put_len16(&mut out, data.len());
    put_bytes(&mut out, data);
    assert(out@ =~= frame_bytes(cmd, sid, data@));
    out
}

/// Reads the head of a frame.
pub fn read_head(hdr: &[u8]) -> (head: FrameHead)
    requires
        hdr@.len() == FRAME_HEADER_SIZE,
    ensures
        head == frame_head(hdr@),
{
    FrameHead { cmd: hdr[0], sid: read_u32(hdr, 1), len: read_u16(hdr, 5) }
}

/// The head of a frame is read back as it was written, and the data follows it.
pub proof fn head_round_trip(cmd: u8, sid: u32, data: Seq<u8>)
    requires
        data.len() <= 65535,
    ensures
        frame_head(frame_bytes(cmd, sid, data)) == (FrameHead { cmd, sid, len: data.len() as u16 }),
        frame_bytes(cmd, sid, data).skip(FRAME_HEADER_SIZE as int) == data,
{
    let s = frame_bytes(cmd, sid, data);
    be_bytes_len(sid as nat, 4);
    be_bytes_len(data.len(), 2);
    assert(byte_range(2) == 65536 && byte_range(4) == 0x1_0000_0000) by {
        reveal_with_fuel(byte_range, 5);
    }
    be_round_trip(sid as nat, 4);
    be_round_trip(data.len(), 2);
    assert(s.subrange(1, 5) =~= be_bytes(sid as nat, 4));
    assert(s.subrange(5, 7) =~= be_bytes(data.len(), 2));
    assert(s.skip(7) =~= data);
}

// ---- writing ----

/// What is handed to the writer.
#[derive(Debug)]
pub enum WriteMsg {
    /// A frame that goes out at once and as it is.
    Control(Vec<u8>),
    /// A frame that may wait for more.
    Frame(Vec<u8>),
    /// A frame that ends the waiting.
    Flush(Vec<u8>),
    Close,
}

/// What the writer is to do.
#[derive(Debug)]
pub enum WriteAction {
    /// Nothing yet.
    Wait,
    /// Write these bytes as they are.
    Plain(Vec<u8>),
    /// Write these bytes with padding.
    Padded(Vec<u8>),
    /// Close the connection.
    Shutdown,
}

/// The frames that wait to go out together.
pub struct WriteTask {
    pub pending: Vec<u8>,
    pub buffering: bool,
}

impl WriteTask {
    pub fn new() -> (w: WriteTask)
        ensures
            w.pending@.len() == 0,
            w.buffering,
    {
        WriteTask { pending: Vec::new(), buffering: true }
    }

    /// Takes a message. Frames wait until the first flush, and then go out in one piece with
    /// the frame that flushed them; control frames never wait.
    pub fn on_message(&mut self, msg: WriteMsg) -> (action: WriteAction)
        ensures
            match msg {
                WriteMsg::Close => action is Shutdown && *final(self) == *old(self),
                WriteMsg::Control(d) => action matches WriteAction::Plain(o) && o@ == d@ && *final(
                    self) == *old(self),
                WriteMsg::Frame(d) => if old(self).buffering {
                    action is Wait && final(self).buffering && final(self).pending@ == old(
                        self,
                    ).pending@ + d@
                } else {
                    action matches WriteAction::Padded(o) && o@ == d@ && *final(self) == *old(self)
                },
                WriteMsg::Flush(d) => action matches WriteAction::Padded(o) && o@ == old(
                    self,
                ).pending@ + d@ && !final(self).buffering && final(self).pending@.len() == 0,
            },
    {
        match msg {
            WriteMsg::Close => WriteAction::Shutdown,
            WriteMsg::Control(data) => WriteAction::Plain(data),
            WriteMsg::Frame(data) => {
                if self.buffering {
                    put_bytes(&mut self.pending, &data);
                    WriteAction::Wait
                } else {
                    WriteAction::Padded(data)
                }
            },
            WriteMsg::Flush(data) => {
                self.buffering = false;
                let mut all: Vec<u8> = Vec::new();
                put_bytes(&mut all, &self.pending);
                put_bytes(&mut all, &data);
                assert(all@ =~= self.pending@ + data@);
                self.pending = Vec::new();
                WriteAction::Padded(all)
            },
        }
    }
}

// ---- the session ----

/// A session.
pub struct AnyTlsSession {
    pub seq: u64,
    pub next_stream_id: u32,
    pub streams: HashSet<u32>,
    pub peer_version: u8,
    pub closed: bool,
}

/// A request on a closed session.
#[derive(Clone, Copy, Debug, PartialEq, Eq, Structural)]
pub struct SessionClosed;

/// What a frame from the server means.
#[derive(Debug)]
pub enum RecvAction {
    /// Nothing to do.
    Nothing,
    /// Hand the data to a stream.
    Deliver(u32, Vec<u8>),
    /// The server refused the stream, with a message.
    Rejected(u32, String),
    /// The server closed the session, with a message where it gave one.
    Alert(Option<String>),
    /// The server sends a new padding scheme.
    UpdatePadding(Vec<u8>),
    /// Send these bytes back at once.
    Reply(Vec<u8>),
}

/// Whether the data of a frame is read at all: that of the frames that should have none is not.
pub open spec fn reads_data(cmd: u8) -> bool {
    cmd != CMD_FIN && cmd != CMD_HEART_REQUEST && cmd != CMD_HEART_RESPONSE
}

/// How many bytes to read behind the head of a frame.
pub fn payload_len(head: &FrameHead) -> (n: usize)
    ensures
        n == if reads_data(head.cmd) {
            head.len as int
        } else {
            0
        },
{
    if head.cmd == CMD_FIN || head.cmd == CMD_HEART_REQUEST || head.cmd == CMD_HEART_RESPONSE {
        0
    } else {
        head.len as usize
    }
}

/// The version that a line of settings names.
pub open spec fn line_version(line: Seq<char>) -> Option<nat> {
    if line.len() >= 2 && line[0] == 'v' && line[1] == '=' {
        parsed_number(trimmed(line.skip(2)), 255)
    } else {
        None
    }
}

/// The version after the lines of `s`; the last line that names one counts.
pub open spec fn settings_version(s: Seq<char>, v: nat) -> nat
    decreases s.len(),
{
    match first_at(s, seq!['\n'], 0) {
        None => match line_version(s) {
            Some(n) => n,
            None => v,
        },
        Some(i) => if 0 <= i < s.len() {
            settings_version(
                s.skip(i + 1),
                match line_version(s.take(i)) {
                    Some(n) => n,
                    None => v,
                },
            )
        } else {
            v
        },
    }
}

fn read_line_version(line: &[char]) -> (v: Option<u8>)
    ensures
        match (v, line_version(line@)) {
            (Some(a), Some(b)) => a as nat == b,
            (None, None) => true,
            _ => false,
        },
{
    if line.len() < 2 || line[0] != 'v' || line[1] != '=' {
        return None;
    }
    let value: String = text_of(line, 2, line.len());
    assert(value@ =~= line@.skip(2));
    match parse_number(&trim(&value), 255) {
        Some(n) => Some(n as u8),
        None => None,
    }
}

/// Reads the version out of the lines of the server's settings.
pub fn read_settings(text: &str, version: u8) -> (v: u8)
    ensures
        v as nat == settings_version(text@, version as nat),
{
    let chars: Vec<char> = chars_of(text);
    let newline: [char; 1] = ['\n'];
    assert(newline@ =~= seq!['\n']);
    let mut v: u8 = version;
    let mut from: usize = 0;
    assert(chars@.skip(0) =~= chars@);
    loop
        invariant
            from <= chars@.len(),
            chars@ == text@,
            newline@ == seq!['\n'],
            settings_version(text@, version as nat) == settings_version(
                chars@.skip(from as int),
                v as nat,
            ),
        decreases chars@.len() - from,
    {
        let rest: &[char] = &chars[from..chars.len()];
        assert(rest@ =~= chars@.skip(from as int));
        match find_text(rest, &newline, 0) {
            None => {
                return match read_line_version(rest) {
                    Some(n) => n,
                    None => v,
                };
            },
            Some(i) => {
                let line: &[char] = &rest[0..i];
                assert(line@ =~= rest@.take(i as int));
                match read_line_version(line) {
                    Some(n) => {
                        v = n;
                    },
                    None => {},
                }
                assert(rest@.skip(i + 1) =~= chars@.skip(from + i + 1));
                from = from + i + 1;
            },
        }
    }
}

/// The settings that the client sends.
pub open spec fn client_settings(md5: Seq<char>) -> Seq<char> {
    "v=2\nclient=reflex/anytls\npadding-md5="@ + md5
}

impl AnyTlsSession {
    pub fn new(seq: u64) -> (s: AnyTlsSession)
        ensures
            s.seq == seq,
            s.next_stream_id == 0,
            s.streams@ == Set::<u32>::empty(),
            s.peer_version == 1,
            !s.closed,
    {
        AnyTlsSession {
            seq,
            next_stream_id: 0,
            streams: HashSet::new(),
            peer_version: 1,
            closed: false,
        }
    }

    pub fn is_closed(&self) -> (yes: bool)
        ensures
            yes == self.closed,
    {
        self.closed
    }

    /// Closes the session; whether it was open until now.
    pub fn close(&mut self) -> (first: bool)
        ensures
            first == !old(self).closed,
            *final(self) == (AnyTlsSession { closed: true, ..*old(self) }),
    {
        let first: bool = !self.closed;
        self.closed = true;
        first
    }

    /// Opens a stream: its number, and the frames that announce it, which wait for the first
    /// data. The first stream sends the client's settings along.
    pub fn open_stream(&mut self, padding_md5: &str) -> (res: Result<(u32, Vec<Vec<u8>>), SessionClosed>)
        requires
            old(self).next_stream_id < u32::MAX,
        ensures
            old(self).closed ==> res is Err && *final(self) == *old(self),
            !old(self).closed ==> (res matches Ok((sid, frames)) && sid == old(self).next_stream_id
                + 1 && final(self).next_stream_id == sid && final(self).streams@ == old(
                self,
            ).streams@.insert(sid) && if sid == 1 {
                frames@.len() == 2 && frames@[0]@ == frame_bytes(
                    CMD_SETTINGS,
                    0,
                    encode_utf8(client_settings(padding_md5@)),
                ) && frames@[1]@ == frame_bytes(CMD_SYN, sid, Seq::empty())
            } else {
                frames@.len() == 1 && frames@[0]@ == frame_bytes(CMD_SYN, sid, Seq::empty())
            }),
            final(self).seq == old(self).seq,
            final(self).peer_version == old(self).peer_version,
            final(self).closed == old(self).closed,
    {
        if self.closed {
            return Err(SessionClosed);
        }
        let sid: u32 = self.next_stream_id + 1;
        self.next_stream_id = sid;
        let mut frames: Vec<Vec<u8>> = Vec::new();
        if sid == 1 {
            let mut text: String = "v=2\nclient=reflex/anytls\npadding-md5=".to_string();
            text.append(padding_md5);
            frames.push(build_frame(CMD_SETTINGS, 0, text.as_str().as_bytes()));
        }
        self.streams.insert(sid);
        let empty: Vec<u8> = Vec::new();
        assert(empty@ =~= Seq::empty());
        frames.push(build_frame(CMD_SYN, sid, &empty));
        Ok((sid, frames))
    }

    /// The frame that sends data on a stream.
    pub fn write_data(&self, sid: u32, data: &[u8]) -> (res: Result<Vec<u8>, SessionClosed>)
        ensures
            match res {
                Ok(f) => !self.closed && f@ == frame_bytes(CMD_PSH, sid, data@),
                Err(_) => self.closed,
            },
    {
        if self.closed {
            return Err(SessionClosed);
        }
        Ok(build_frame(CMD_PSH, sid, data))
    }

    /// Ends a stream on this side: the frame that tells the server, unless the session is over.
    pub fn close_stream_local(&mut self, sid: u32) -> (frame: Option<Vec<u8>>)
        ensures
            match frame {
                Some(f) => !old(self).closed && f@ == frame_bytes(CMD_FIN, sid, Seq::empty()),
                None => old(self).closed,
            },
            final(self).streams@ == old(self).streams@.remove(sid),
            final(self).seq == old(self).seq,
            final(self).next_stream_id == old(self).next_stream_id,
            final(self).peer_version == old(self).peer_version,
            final(self).closed == old(self).closed,
    {
        self.streams.remove(&sid);
        if self.closed {
            return None;
        }
        let empty: Vec<u8> = Vec::new();
        assert(empty@ =~= Seq::empty());
        Some(build_frame(CMD_FIN, sid, &empty))
    }

    /// Takes a frame from the server, with as much of its data as `payload_len` says.
    pub fn on_frame(&mut self, head: FrameHead, data: Vec<u8>) -> (action: RecvAction)
        requires
            data@.len() == if reads_data(head.cmd) {
                head.len as nat
            } else {
                0
            },
        ensures
            received(action, *old(self), head, data@),
            after_frame(*final(self), *old(self), head, data@),
    {
        let cmd: u8 = head.cmd;
        let sid: u32 = head.sid;
        if cmd == CMD_PSH {
            if data.len() > 0 && self.streams.contains(&sid) {
                return RecvAction::Deliver(sid, data);
            }
            return RecvAction::Nothing;
        }
        if cmd == CMD_FIN {
            self.streams.remove(&sid);
            return RecvAction::Nothing;
        }
        if cmd == CMD_ALERT {
            self.closed = true;
            if data.len() > 0 {
                return RecvAction::Alert(Some(from_utf8_lossy(&data)));
            }
            return RecvAction::Alert(None);
        }
        if cmd == CMD_UPDATE_PADDING {
            if data.len() > 0 {
                return RecvAction::UpdatePadding(data);
            }
            return RecvAction::Nothing;
        }
        if cmd == CMD_SYNACK {
            if data.len() > 0 {
                self.streams.remove(&sid);
                return RecvAction::Rejected(sid, from_utf8_lossy(&data));
            }
            return RecvAction::Nothing;
        }
        if cmd == CMD_HEART_REQUEST {
            let empty: Vec<u8> = Vec::new();
            assert(empty@ =~= Seq::empty());
            return RecvAction::Reply(build_frame(CMD_HEART_RESPONSE, sid, &empty));
        }
        if cmd == CMD_SERVER_SETTINGS && data.len() > 0 {
            match utf8_text(&data) {
                Some(text) => {
                    self.peer_version = read_settings(&text, self.peer_version);
                },
                None => {},
            }
        }
        RecvAction::Nothing
    }
}

/// What a frame from the server leads to.
pub open spec fn received(action: RecvAction, s: AnyTlsSession, head: FrameHead, data: Seq<u8>) -> bool {
    if head.cmd == CMD_PSH && data.len() > 0 && s.streams@.contains(head.sid) {
        action matches RecvAction::Deliver(sid, d) && sid == head.sid && d@ == data
    } else if head.cmd == CMD_ALERT {
        action matches RecvAction::Alert(m) && if data.len() > 0 {
            m matches Some(t) && t@ == lossy_text(data)
        } else {
            m is None
        }
    } else if head.cmd == CMD_UPDATE_PADDING && data.len() > 0 {
        action matches RecvAction::UpdatePadding(d) && d@ == data
    } else if head.cmd == CMD_SYNACK && data.len() > 0 {
        action matches RecvAction::Rejected(sid, t) && sid == head.sid && t@ == lossy_text(data)
    } else if head.cmd == CMD_HEART_REQUEST {
        action matches RecvAction::Reply(f) && f@ == frame_bytes(
            CMD_HEART_RESPONSE,
            head.sid,
            Seq::empty(),
        )
    } else {
        action is Nothing
    }
}

/// The session after a frame from the server.
pub open spec fn after_frame(
    new: AnyTlsSession,
    old: AnyTlsSession,
    head: FrameHead,
    data: Seq<u8>,
) -> bool {
    &&& new.seq == old.seq
    &&& new.next_stream_id == old.next_stream_id
    &&& new.closed == (old.closed || head.cmd == CMD_ALERT)
    &&& new.streams@ == if head.cmd == CMD_FIN || (head.cmd == CMD_SYNACK && data.len() > 0) {
        old.streams@.remove(head.sid)
    } else {
        old.streams@
    }
    &&& new.peer_version as nat == if head.cmd == CMD_SERVER_SETTINGS && data.len() > 0
        && valid_utf8(data) {
        settings_version(decode_utf8(data), old.peer_version as nat)
    } else {
        old.peer_version as nat
    }
}

/// What reading from a stream gives when no data waits.
#[derive(Clone, Copy, Debug, PartialEq, Eq, Structural)]
pub enum StreamEnd {
    /// Wait.
    Pending,
    /// The stream ended.
    Eof,
    /// The session is gone.
    Reset,
}

/// What reading from a stream gives when no data waits: the loss of the session shows as an
/// error, the end of the stream as its end.
pub fn stream_end(stream_open: bool, session_closed: bool) -> (e: StreamEnd)
    ensures
        e == if session_closed {
            StreamEnd::Reset
        } else if stream_open {
            StreamEnd::Pending
        } else {
            StreamEnd::Eof
        },
{
    if session_closed {
        StreamEnd::Reset
    } else if stream_open {
        StreamEnd::Pending
    } else {
        StreamEnd::Eof
    }
}

/// Whether the text of an error stands for the end of the connection.
pub open spec fn quiet_end(s: Seq<char>) -> bool {
    has_part(s, "eof"@) || has_part(s, "EOF"@) || has_part(s, "closed"@) || has_part(s, "reset"@)
}

/// Whether the text of an error stands for the end of the connection.
pub fn ends_quietly(err: &str) -> (yes: bool)
    ensures
        yes == quiet_end(err@),
{
    contains_text(err, "eof") || contains_text(err, "EOF") || contains_text(err, "closed")
        || contains_text(err, "reset")
}

// ---- idle sessions ----

/// An idle session: its number, and since when it has been idle, in milliseconds.
#[derive(Clone, Copy, Debug, PartialEq, Eq, Structural)]
pub struct Idle {
    pub seq: u64,
    pub since: u64,
}

/// The idle sessions of a client, the newest last.
pub struct IdlePool {
    pub idle: Vec<Idle>,
    pub session_seq: u64,
}

/// Whether the sessions stand in the order of their numbers.
pub open spec fn in_order(idle: Seq<Idle>) -> bool {
    forall|i: int, j: int| 0 <= i < j < idle.len() ==> idle[i].seq <= idle[j].seq
}

/// Whether no session stands twice.
pub open spec fn distinct(idle: Seq<Idle>) -> bool {
    forall|i: int, j: int| 0 <= i < j < idle.len() ==> idle[i].seq != idle[j].seq
}

/// The place of the last session that is not closed.
pub open spec fn newest_open(idle: Seq<Idle>, closed: Seq<u64>) -> Option<int>
    decreases idle.len(),
{
    if idle.len() == 0 {
        None
    } else if closed.contains(idle.last().seq) {
        newest_open(idle.drop_last(), closed)
    } else {
        Some(idle.len() - 1)
    }
}

/// How many of the sessions have a smaller number. They stand in front.
pub open spec fn smaller(idle: Seq<Idle>, seq: u64) -> nat
    decreases idle.len(),
{
    if idle.len() == 0 {
        0
    } else if idle[0].seq < seq {
        1 + smaller(idle.skip(1), seq)
    } else {
        0
    }
}

/// The sessions but for those with the given number.
pub open spec fn without(idle: Seq<Idle>, seq: u64) -> Seq<Idle>
    decreases idle.len(),
{
    if idle.len() == 0 {
        Seq::empty()
    } else if idle.last().seq == seq {
        without(idle.drop_last(), seq)
    } else {
        without(idle.drop_last(), seq).push(idle.last())
    }
}

/// Whether a session has been idle for too long.
pub open spec fn expired(s: Idle, now: u64, timeout: u64) -> bool {
    now - s.since > timeout
}

/// Whether a session is to be closed: one with its number has been idle for too long and is
/// not among the last `min_idle`.
pub open spec fn to_close(idle: Seq<Idle>, seq: u64, now: u64, timeout: u64, min_idle: nat) -> bool {
    exists|i: int|
        0 <= i < idle.len() - min_idle && (#[trigger] idle[i]).seq == seq && expired(
            idle[i],
            now,
            timeout,
        )
}

/// The numbers of those among the first `n` sessions that have been idle for too long, in order.
pub open spec fn expired_seqs(idle: Seq<Idle>, n: nat, now: u64, timeout: u64) -> Seq<u64>
    decreases n,
{
    if n == 0 {
        Seq::empty()
    } else {
        let front = expired_seqs(idle, (n - 1) as nat, now, timeout);
        if expired(idle[n - 1], now, timeout) {
            front.push(idle[n - 1].seq)
        } else {
            front
        }
    }
}

/// How many of `total` sessions are not among the last `min_idle`.
pub open spec fn may_go(total: nat, min_idle: nat) -> nat {
    if total > min_idle {
        (total - min_idle) as nat
    } else {
        0
    }
}

/// The sessions that stay.
pub open spec fn kept(idle: Seq<Idle>, n: nat, now: u64, timeout: u64, min_idle: nat) -> Seq<Idle>
    decreases n,
{
    if n == 0 {
        Seq::empty()
    } else {
        let front = kept(idle, (n - 1) as nat, now, timeout, min_idle);
        if to_close(idle, idle[n - 1].seq, now, timeout, min_idle) {
            front
        } else {
            front.push(idle[n - 1])
        }
    }
}

fn lists(seqs: &Vec<u64>, seq: u64) -> (yes: bool)
    ensures
        yes == seqs@.contains(seq),
{
    let mut i: usize = 0;
    while i < seqs.len()
        invariant
            i <= seqs@.len(),
            forall|j: int| 0 <= j < i ==> seqs@[j] != seq,
        decreases seqs@.len() - i,
    {
        if seqs[i] == seq {
            assert(seqs@[i as int] == seq);
            return true;
        }
        i += 1;
    }
    false
}

impl IdlePool {
    pub open spec fn wf(&self) -> bool {
        in_order(self.idle@)
    }

    pub fn new() -> (p: IdlePool)
        ensures
            p.wf(),
            p.idle@.len() == 0,
            p.session_seq == 0,
    {
        IdlePool { idle: Vec::new(), session_seq: 0 }
    }

    /// A number for a new session.
    pub fn next_seq(&mut self) -> (seq: u64)
        requires
            old(self).session_seq < u64::MAX,
        ensures
            seq == old(self).session_seq + 1,
            final(self).session_seq == seq,
            final(self).idle == old(self).idle,
    {
        self.session_seq = self.session_seq + 1;
        self.session_seq
    }

    /// Takes the newest idle session that is not closed. The closed ones found on the way are
    /// dropped.
    pub fn take(&mut self, closed: &Vec<u64>) -> (seq: Option<u64>)
        requires
            old(self).wf(),
        ensures
            final(self).wf(),
            final(self).session_seq == old(self).session_seq,
            match (seq, newest_open(old(self).idle@, closed@)) {
                (Some(s), Some(i)) => 0 <= i < old(self).idle@.len() && s == old(
                    self,
                ).idle@[i].seq && final(self).idle@ == old(self).idle@.take(i),
                (None, None) => final(self).idle@.len() == 0,
                _ => false,
            },
    {
        let ghost all = self.idle@;
        assert(all.take(all.len() as int) =~= all);
        while self.idle.len() > 0
            invariant
                all == old(self).idle@,
                self.idle@ == all.take(self.idle@.len() as int),
                self.idle@.len() <= all.len(),
                in_order(all),
                newest_open(all, closed@) == newest_open(self.idle@, closed@),
                self.session_seq == old(self).session_seq,
            decreases self.idle@.len(),
        {
            let ghost before = self.idle@;
            match self.idle.pop() {
                Some(s) => {
                    assert(self.idle@ =~= before.drop_last());
                    assert(self.idle@ =~= all.take(self.idle@.len() as int));
                    if !lists(closed, s.seq) {
                        return Some(s.seq);
                    }
                },
                None => {},
            }
        }
        None
    }

    /// Puts a session back, unless it is closed.
    pub fn return_idle(&mut self, seq: u64, closed: bool, now: u64)
        requires
            old(self).wf(),
        ensures
            final(self).wf(),
            final(self).session_seq == old(self).session_seq,
            final(self).idle@ == if closed {
                old(self).idle@
            } else {
                old(self).idle@.insert(
                    smaller(old(self).idle@, seq) as int,
                    Idle { seq, since: now },
                )
            },
            smaller(old(self).idle@, seq) <= old(self).idle@.len(),
    {
        let ghost all = self.idle@;
        let mut pos: usize = 0;
        assert(all.skip(0) =~= all);
        while pos < self.idle.len() && self.idle[pos].seq < seq
            invariant
                pos <= self.idle@.len(),
                self.idle@ == all,
                self.session_seq == old(self).session_seq,
                smaller(all, seq) == pos + smaller(all.skip(pos as int), seq),
                forall|i: int| 0 <= i < pos ==> (#[trigger] all[i]).seq < seq,
            decreases self.idle@.len() - pos,
        {
            assert(all.skip(pos as int).skip(1) =~= all.skip(pos + 1));
            pos += 1;
        }
        assert(smaller(all, seq) == pos);
        if closed {
            return;
        }
        self.idle.insert(pos, Idle { seq, since: now });
    }

    /// Forgets a session that was closed.
    pub fn forget(&mut self, seq: u64)
        requires
            old(self).wf(),
        ensures
            final(self).wf(),
            final(self).session_seq == old(self).session_seq,
            final(self).idle@ == without(old(self).idle@, seq),
    {
        let ghost all = self.idle@;
        let mut rest: Vec<Idle> = Vec::new();
        let mut i: usize = 0;
        while i < self.idle.len()
            invariant
                i <= self.idle@.len(),
                self.idle@ == all,
                self.session_seq == old(self).session_seq,
                rest@ == without(all.take(i as int), seq),
            decreases self.idle@.len() - i,
        {
            proof {
                assert(all.take(i + 1).drop_last() =~= all.take(i as int));
                assert(all.take(i + 1).last() == all[i as int]);
            }
            let s: Idle = self.idle[i];
            if s.seq != seq {
                rest.push(s);
            }
            i += 1;
        }
        assert(all.take(i as int) =~= all);
        proof {
            without_in_order(all, seq);
        }
        self.idle = rest;
    }

    /// Closes sessions that have been idle for too long, but for the newest `min_idle`. Gives
    /// the numbers of those to close.
    pub fn cleanup(&mut self, now: u64, timeout: u64, min_idle: usize) -> (closing: Vec<u64>)
        requires
            old(self).wf(),
        ensures
            final(self).session_seq == old(self).session_seq,
            final(self).idle@ == kept(
                old(self).idle@,
                old(self).idle@.len(),
                now,
                timeout,
                min_idle as nat,
            ),
            final(self).wf(),
            closing@ == expired_seqs(
                old(self).idle@,
                may_go(old(self).idle@.len(), min_idle as nat),
                now,
                timeout,
            ),
            forall|seq: u64|
                closing@.contains(seq) <==> #[trigger] to_close(
                    old(self).idle@,
                    seq,
                    now,
                    timeout,
                    min_idle as nat,
                ),
    {
        let ghost all = self.idle@;
        let total: usize = self.idle.len();
        let keep_from: usize = if total > min_idle {
            total - min_idle
        } else {
            0
        };
        let mut closing: Vec<u64> = Vec::new();
        let mut i: usize = 0;
        while i < keep_from
            invariant
                i <= keep_from <= total,
                total == self.idle@.len(),
                self.idle@ == all,
                self.session_seq == old(self).session_seq,
                closing@ == expired_seqs(all, i as nat, now, timeout),
                forall|seq: u64|
                    #![trigger closing@.contains(seq)]
                    closing@.contains(seq) <==> exists|k: int|
                        0 <= k < i && (#[trigger] all[k]).seq == seq && expired(
                            all[k],
                            now,
                            timeout,
                        ),
            decreases keep_from - i,
        {
            let s: Idle = self.idle[i];
            let old_enough: bool = now > s.since && now - s.since > timeout;
            let ghost before = closing@;
            if old_enough {
                closing.push(s.seq);
                proof {
                    assert forall|seq: u64|
                        #![trigger closing@.contains(seq)]
                        closing@.contains(seq) <==> (before.contains(seq) || seq == s.seq) by {
                        if before.contains(seq) {
                            let k = choose|k: int| 0 <= k < before.len() && before[k] == seq;
                            assert(closing@[k] == seq);
                        }
                        if seq == s.seq {
                            assert(closing@[before.len() as int] == seq);
                        }
                    }
                }
            }
            assert(old_enough == expired(all[i as int], now, timeout));
            i += 1;
        }
        proof {
            assert forall|seq: u64| closing@.contains(seq) <==> #[trigger] to_close(
                all,
                seq,
                now,
                timeout,
                min_idle as nat,
            ) by {}
        }
        let mut rest: Vec<Idle> = Vec::new();
        let mut j: usize = 0;
        while j < self.idle.len()
            invariant
                j <= self.idle@.len(),
                self.idle@ == all,
                self.session_seq == old(self).session_seq,
                rest@ == kept(all, j as nat, now, timeout, min_idle as nat),
                forall|seq: u64|
                    closing@.contains(seq) <==> #[trigger] to_close(
                        all,
                        seq,
                        now,
                        timeout,
                        min_idle as nat,
                    ),
            decreases self.idle@.len() - j,
        {
            let s: Idle = self.idle[j];
            if !lists(&closing, s.seq) {
                rest.push(s);
            }
            j += 1;
        }
        proof {
            kept_in_order(all, all.len(), now, timeout, min_idle as nat);
        }
        self.idle = rest;
        closing
    }
}

proof fn without_in_order(idle: Seq<Idle>, seq: u64)
    requires
        in_order(idle),
    ensures
        in_order(without(idle, seq)),
        forall|i: int|
            0 <= i < without(idle, seq).len() ==> idle.len() > 0 && (#[trigger] without(
                idle,
                seq,
            )[i]).seq <= idle.last().seq,
    decreases idle.len(),
{
    if idle.len() > 0 {
        without_in_order(idle.drop_last(), seq);
    }
}

proof fn kept_in_order(idle: Seq<Idle>, n: nat, now: u64, timeout: u64, min_idle: nat)
    requires
        in_order(idle),
        n <= idle.len(),
    ensures
        in_order(kept(idle, n, now, timeout, min_idle)),
        forall|i: int|
            0 <= i < kept(idle, n, now, timeout, min_idle).len() ==> n > 0 && (#[trigger] kept(
                idle,
                n,
                now,
                timeout,
                min_idle,
            )[i]).seq <= idle[n - 1].seq,
    decreases n,
{
    if n > 0 {
        kept_in_order(idle, (n - 1) as nat, now, timeout, min_idle);
    }
}

/// Cleaning up leaves the newest `min_idle` sessions alone, and every session that has not
/// been idle for too long.
pub proof fn cleanup_spares(idle: Seq<Idle>, i: int, now: u64, timeout: u64, min_idle: nat)
    requires
        distinct(idle),
        0 <= i < idle.len(),
        i >= idle.len() - min_idle || !expired(idle[i], now, timeout),
    ensures
        !to_close(idle, idle[i].seq, now, timeout, min_idle),
        kept(idle, idle.len(), now, timeout, min_idle).contains(idle[i]),
{
    if to_close(idle, idle[i].seq, now, timeout, min_idle) {
        let k = choose|k: int|
            0 <= k < idle.len() - min_idle && (#[trigger] idle[k]).seq == idle[i].seq && expired(
                idle[k],
                now,
                timeout,
            );
        if k < i {
            assert(idle[k].seq != idle[i].seq);
        } else if i < k {
            assert(idle[i].seq != idle[k].seq);
        }
    }
    kept_has(idle, idle.len(), i, now, timeout, min_idle);
}

proof fn kept_has(idle: Seq<Idle>, n: nat, i: int, now: u64, timeout: u64, min_idle: nat)
    requires
        0 <= i < n <= idle.len(),
        !to_close(idle, idle[i].seq, now, timeout, min_idle),
    ensures
        kept(idle, n, now, timeout, min_idle).contains(idle[i]),
    decreases n,
{
    let front = kept(idle, (n - 1) as nat, now, timeout, min_idle);
    if i < n - 1 {
        kept_has(idle, (n - 1) as nat, i, now, timeout, min_idle);
        let k = choose|k: int| 0 <= k < front.len() && front[k] == idle[i];
        assert(kept(idle, n, now, timeout, min_idle)[k] == idle[i]);
    } else {
        assert(kept(idle, n, now, timeout, min_idle)[front.len() as int] == idle[i]);
    }
}

} // verus!
