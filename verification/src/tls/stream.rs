//! The byte stream on top of protected records.
//!
//! Reading and writing are split from the connection: the reader says how many bytes it
//! wants next and is fed what arrived; the writer holds the bytes that are still to go out.

use crate::tls::keys::{suite_aead, CipherSuite};
use crate::tls::record::{
    nonce_of, opened_record, record_header, record_len, sealed_record, RecordError, RecordKey,
    MAX_RECORD, TLS_RECORD_ALERT, TLS_RECORD_APPLICATION_DATA,
};
use crate::crypto::{can_seal, sealed, TAG_LEN};
use crate::wire::{
    be_bytes, be_bytes_len, be_round_trip, be_value, byte_range, copy_range, put_bytes, read_u16,
};
use vstd::prelude::*;

verus! {

/// What became of the bytes that were fed.
#[derive(Clone, Copy, Debug, PartialEq, Eq, Structural)]
pub enum ReadEvent {
    /// Nothing to hand out yet.
    More,
    /// There is data to hand out.
    Data,
    /// The other side closed the stream.
    Closed,
    Failed(RecordError),
}

/// The receiving side of a stream.
pub struct RecordReader {
    pub key: RecordKey,
    /// The part of the current record that has arrived.
    pub raw: Vec<u8>,
    /// Data that has not been handed out.
    pub plain: Vec<u8>,
}

/// The payload length that a record header announces.
pub open spec fn announced(raw: Seq<u8>) -> nat {
    be_value(raw.subrange(3, 5))
}

/// How many bytes are missing of the current record, or of its header while that is not
/// complete.
pub open spec fn missing(raw: Seq<u8>) -> nat {
    if raw.len() < 5 {
        (5 - raw.len()) as nat
    } else {
        (5 + announced(raw) - raw.len()) as nat
    }
}

/// What a reader holds between calls: less than a whole record, of an acceptable length.
pub open spec fn partial(raw: Seq<u8>) -> bool {
    raw.len() < 5 || (announced(raw) <= MAX_RECORD && raw.len() < 5 + announced(raw))
}

/// A key with the number of the next record.
pub struct KeyState {
    pub suite: CipherSuite,
    pub key: Seq<u8>,
    pub iv: Seq<u8>,
    pub seq: nat,
}

/// What a key holds.
pub open spec fn key_state(key: RecordKey) -> KeyState {
    KeyState { suite: key.suite, key: key.key@, iv: key.iv@, seq: key.seq as nat }
}

/// The key after `n` more records.
pub open spec fn later(key: KeyState, n: nat) -> KeyState {
    KeyState { seq: key.seq + n, ..key }
}

/// What a record amounts to: the event, the data it adds, and whether it used up a number
/// of the key.
pub open spec fn record_effect(key: KeyState, raw: Seq<u8>) -> (ReadEvent, Seq<u8>, nat) {
    if raw[0] != TLS_RECORD_APPLICATION_DATA {
        (ReadEvent::More, Seq::empty(), 0)
    } else {
        let text = raw.skip(5);
        let used = if text.len() < TAG_LEN {
            0nat
        } else {
            1nat
        };
        match opened_record(
            key.suite,
            key.key,
            nonce_of(key.iv, key.seq),
            raw.take(5),
            text,
        ) {
            Err(e) => (ReadEvent::Failed(e), Seq::empty(), used),
            Ok((kind, content)) => if kind == TLS_RECORD_APPLICATION_DATA {
                (
                    if content.len() > 0 {
                        ReadEvent::Data
                    } else {
                        ReadEvent::More
                    },
                    content,
                    used,
                )
            } else if kind == TLS_RECORD_ALERT {
                (ReadEvent::Closed, Seq::empty(), used)
            } else {
                (ReadEvent::More, Seq::empty(), used)
            },
        }
    }
}

/// What feeding leads to, once `raw` has arrived of the current record: the event, what is
/// left of the record, the data added, and the numbers used.
pub open spec fn fed(key: KeyState, raw: Seq<u8>) -> (ReadEvent, Seq<u8>, Seq<u8>, nat) {
    if raw.len() < 5 {
        (ReadEvent::More, raw, Seq::empty(), 0)
    } else if announced(raw) > MAX_RECORD {
        (
            ReadEvent::Failed(RecordError::TooLarge(announced(raw) as usize)),
            Seq::empty(),
            Seq::empty(),
            0,
        )
    } else if raw.len() < 5 + announced(raw) {
        (ReadEvent::More, raw, Seq::empty(), 0)
    } else {
        let (event, data, used) = record_effect(key, raw);
        (event, Seq::empty(), data, used)
    }
}

/// Bytes came in, with this event.
pub open spec fn received(
    before: RecordReader,
    after: RecordReader,
    bytes: Seq<u8>,
    event: ReadEvent,
) -> bool {
    let (e, raw, data, used) = fed(key_state(before.key), before.raw@ + bytes);
    &&& event == e
    &&& after.raw@ == raw
    &&& after.plain@ == before.plain@ + data
    &&& key_state(after.key) == later(key_state(before.key), used)
}

/// Data went out: all that there is, but no more than `n` bytes.
pub open spec fn handed_out(
    before: RecordReader,
    after: RecordReader,
    n: nat,
    data: Seq<u8>,
) -> bool {
    let m = if n < before.plain@.len() {
        n as int
    } else {
        before.plain@.len() as int
    };
    &&& data == before.plain@.take(m)
    &&& after.plain@ == before.plain@.skip(m)
    &&& after.key == before.key
    &&& after.raw == before.raw
}

proof fn header_announces(len: nat)
    requires
        len <= 65535,
    ensures
        record_header(len).len() == 5,
        record_header(len)[0] == TLS_RECORD_APPLICATION_DATA,
        announced(record_header(len)) == len,
{
    be_bytes_len(len, 2);
    reveal_with_fuel(byte_range, 3);
    assert(byte_range(2) == 65536);
    be_round_trip(len, 2);
    assert(record_header(len).subrange(3, 5) =~= be_bytes(len, 2));
}

impl RecordReader {
    pub open spec fn wf(&self) -> bool {
        self.key.wf() && partial(self.raw@)
    }

    pub fn new(key: RecordKey) -> (r: RecordReader)
        requires
            key.wf(),
        ensures
            r.wf(),
            r.key == key,
            r.raw@.len() == 0,
            r.plain@.len() == 0,
    {
        RecordReader { key, raw: Vec::new(), plain: Vec::new() }
    }

    /// How many bytes to read next.
    pub fn want(&self) -> (n: usize)
        requires
            self.wf(),
        ensures
            n as nat == missing(self.raw@),
            n > 0,
    {
        if self.raw.len() < 5 {
            5 - self.raw.len()
        } else {
            5 + read_u16(&self.raw, 3) as usize - self.raw.len()
        }
    }

    /// Takes bytes that arrived, at most as many as are wanted.
    pub fn feed(&mut self, bytes: &[u8]) -> (event: ReadEvent)
        requires
            old(self).wf(),
            old(self).key.seq < u64::MAX,
            bytes@.len() <= missing(old(self).raw@),
        ensures
            final(self).wf(),
            received(*old(self), *final(self), bytes@, event),
            forall|content: Seq<u8>|
                0 < content.len() <= MAX_RECORD - 17 && (old(self).raw@ + bytes@).len()
                    == content.len() + 22 && old(self).raw@ + bytes@ == #[trigger] sealed_record(
                    old(self).key.suite,
                    old(self).key.key@,
                    nonce_of(old(self).key.iv@, old(self).key.seq as nat),
                    TLS_RECORD_APPLICATION_DATA,
                    content,
                ) ==> event == ReadEvent::Data && final(self).plain@ == old(self).plain@ + content,
    {
        let ghost all = self.raw@ + bytes@;
        proof {
            assert forall|content: Seq<u8>|
                content.len() <= MAX_RECORD - 17 && all.len() == content.len() + 22 && all
                    == #[trigger] sealed_record(
                    old(self).key.suite,
                    old(self).key.key@,
                    nonce_of(old(self).key.iv@, old(self).key.seq as nat),
                    TLS_RECORD_APPLICATION_DATA,
                    content,
                ) implies announced(all) == content.len() + 17
                && all[0] == TLS_RECORD_APPLICATION_DATA && all.take(5) == record_header(
                content.len() + 17,
            ) && all.skip(5) == sealed(
                suite_aead(old(self).key.suite),
                old(self).key.key@,
                nonce_of(old(self).key.iv@, old(self).key.seq as nat),
                all.take(5),
                content.push(TLS_RECORD_APPLICATION_DATA),
            ) by {
                header_announces(content.len() + 17);
                let h = record_header(content.len() + 17);
                assert(all.take(5) =~= h);
                assert(all.subrange(3, 5) =~= h.subrange(3, 5));
                assert(all.skip(5) =~= sealed(
                    suite_aead(old(self).key.suite),
                    old(self).key.key@,
                    nonce_of(old(self).key.iv@, old(self).key.seq as nat),
                    h,
                    content.push(TLS_RECORD_APPLICATION_DATA),
                ));
            }
        }
        put_bytes(&mut self.raw, bytes);
        assert(self.plain@ + Seq::<u8>::empty() =~= self.plain@);
        if self.raw.len() < 5 {
            return ReadEvent::More;
        }
        let len: usize = match record_len(&self.raw) {
            Ok(n) => n,
            Err(e) => {
                self.raw = Vec::new();
                assert(self.raw@ =~= Seq::empty());
                return ReadEvent::Failed(e);
            },
        };
        if self.raw.len() < 5 + len {
            return ReadEvent::More;
        }
        proof {
            if old(self).raw@.len() >= 5 {
                assert((old(self).raw@ + bytes@).subrange(3, 5) =~= old(self).raw@.subrange(3, 5));
            }
        }
        let kind: u8 = self.raw[0];
        let header: Vec<u8> = copy_range(&self.raw, 0, 5);
        let text: Vec<u8> = copy_range(&self.raw, 5, self.raw.len());
        assert(header@ =~= self.raw@.take(5));
        assert(text@ =~= self.raw@.skip(5));
        self.raw = Vec::new();
        assert(self.raw@ =~= Seq::empty());
        if kind != TLS_RECORD_APPLICATION_DATA {
            return ReadEvent::More;
        }
        match self.key.open(&header, &text) {
            Err(e) => ReadEvent::Failed(e),
            Ok((inner, content)) => {
                if inner == TLS_RECORD_APPLICATION_DATA {
                    put_bytes(&mut self.plain, &content);
                    if content.len() > 0 {
                        ReadEvent::Data
                    } else {
                        ReadEvent::More
                    }
                } else if inner == TLS_RECORD_ALERT {
                    ReadEvent::Closed
                } else {
                    ReadEvent::More
                }
            },
        }
    }

    /// Hands out data, at most `n` bytes.
    pub fn take(&mut self, n: usize) -> (data: Vec<u8>)
        ensures
            handed_out(*old(self), *final(self), n as nat, data@),
    {
        let m: usize = if n < self.plain.len() {
            n
        } else {
            self.plain.len()
        };
        let data: Vec<u8> = copy_range(&self.plain, 0, m);
        let rest: Vec<u8> = copy_range(&self.plain, m, self.plain.len());
        assert(data@ =~= self.plain@.take(m as int));
        assert(rest@ =~= self.plain@.skip(m as int));
        self.plain = rest;
        data
    }
}

/// How a record is cut up on its way does not matter: while it is incomplete, feeding one
/// part after another is the same as feeding them together.
pub proof fn parts_do_not_matter(key: KeyState, raw: Seq<u8>, a: Seq<u8>, b: Seq<u8>)
    requires
        partial(raw + a),
    ensures
        fed(key, raw + a) == (ReadEvent::More, raw + a, Seq::<u8>::empty(), 0nat),
        fed(key, fed(key, raw + a).1 + b) == fed(key, raw + (a + b)),
{
    assert((raw + a) + b =~= raw + (a + b));
}

// ---- a whole stream ----

/// Something that happens to a reader.
pub enum ReadMove {
    /// Bytes come in, with this event.
    Feed(Seq<u8>, ReadEvent),
    /// At most so many bytes are asked for, and these are handed out.
    Take(nat, Seq<u8>),
}

/// The stream goes no further.
pub open spec fn is_end(event: ReadEvent) -> bool {
    event is Closed || event is Failed
}

/// The move leads from one state of a reader to the other, and the stream goes on.
pub open spec fn moved(m: ReadMove, before: RecordReader, after: RecordReader) -> bool {
    match m {
        ReadMove::Feed(bytes, event) => bytes.len() <= missing(before.raw@) && received(
            before,
            after,
            bytes,
            event,
        ) && !is_end(event),
        ReadMove::Take(n, data) => handed_out(before, after, n, data),
    }
}

/// The moves lead from the first of the states to the last.
pub open spec fn led(states: Seq<RecordReader>, moves: Seq<ReadMove>) -> bool {
    &&& states.len() == moves.len() + 1
    &&& forall|i: int| 0 <= i < moves.len() ==> #[trigger] moved(moves[i], states[i], states[i + 1])
}

/// The bytes that come in by a move.
pub open spec fn bytes_in(m: ReadMove) -> Seq<u8> {
    match m {
        ReadMove::Feed(bytes, _) => bytes,
        ReadMove::Take(_, _) => Seq::empty(),
    }
}

/// The data that goes out by a move.
pub open spec fn data_out(m: ReadMove) -> Seq<u8> {
    match m {
        ReadMove::Feed(_, _) => Seq::empty(),
        ReadMove::Take(_, data) => data,
    }
}

/// All bytes that came in.
pub open spec fn arrived(moves: Seq<ReadMove>) -> Seq<u8>
    decreases moves.len(),
{
    if moves.len() == 0 {
        Seq::empty()
    } else {
        arrived(moves.drop_last()) + bytes_in(moves.last())
    }
}

/// All data that was handed out.
pub open spec fn delivered(moves: Seq<ReadMove>) -> Seq<u8>
    decreases moves.len(),
{
    if moves.len() == 0 {
        Seq::empty()
    } else {
        delivered(moves.drop_last()) + data_out(moves.last())
    }
}

/// What the bytes of a stream say: the data of its whole records up to the first that ends the
/// stream, and how that one ends it.
pub open spec fn stream_data(key: KeyState, bytes: Seq<u8>) -> (Seq<u8>, Option<ReadEvent>)
    decreases bytes.len(),
{
    if partial(bytes) {
        (Seq::empty(), None)
    } else if announced(bytes) > MAX_RECORD {
        (Seq::empty(), Some(ReadEvent::Failed(RecordError::TooLarge(announced(bytes) as usize))))
    } else {
        let n = 5 + announced(bytes) as int;
        let (event, data, used) = record_effect(key, bytes.take(n));
        if is_end(event) {
            (Seq::empty(), Some(event))
        } else {
            let (rest, end) = stream_data(later(key, used), bytes.skip(n));
            (data + rest, end)
        }
    }
}

/// A record that has arrived in full tells the same whatever follows it.
proof fn first_record(key: KeyState, raw: Seq<u8>, x: Seq<u8>)
    requires
        !partial(raw),
        announced(raw) > MAX_RECORD || raw.len() == 5 + announced(raw),
    ensures
        ({
            let (event, left, data, used) = fed(key, raw);
            stream_data(key, raw + x) == if is_end(event) {
                (Seq::<u8>::empty(), Some(event))
            } else {
                let (rest, end) = stream_data(later(key, used), x);
                (data + rest, end)
            }
        }),
        fed(key, raw).1.len() == 0,
{
    let all = raw + x;
    assert(all.subrange(3, 5) =~= raw.subrange(3, 5));
    if announced(raw) <= MAX_RECORD {
        let n = 5 + announced(raw) as int;
        assert(all.take(n) =~= raw);
        assert(all.skip(n) =~= x);
    }
}

/// What is still to come out of a reader, once `more` has arrived.
spec fn to_come(r: RecordReader, more: Seq<u8>) -> (Seq<u8>, Option<ReadEvent>) {
    stream_data(key_state(r.key), r.raw@ + more)
}

/// What a move leaves of a stream: `x` is what is still to arrive.
proof fn move_keeps(m: ReadMove, before: RecordReader, after: RecordReader, x: Seq<u8>)
    requires
        partial(before.raw@),
        moved(m, before, after),
    ensures
        partial(after.raw@),
        before.plain@ + to_come(before, bytes_in(m) + x).0 == data_out(m) + (after.plain@
            + to_come(after, x).0),
        to_come(before, bytes_in(m) + x).1 == to_come(after, x).1,
{
    let rest = after.plain@ + to_come(after, x).0;
    assert(Seq::<u8>::empty() + rest =~= rest);
    assert(Seq::<u8>::empty() + x =~= x);
    match m {
        ReadMove::Feed(bytes, event) => {
            let raw = before.raw@ + bytes;
            let key = key_state(before.key);
            assert(before.raw@ + (bytes + x) =~= raw + x);
            if before.raw@.len() >= 5 {
                assert(raw.subrange(3, 5) =~= before.raw@.subrange(3, 5));
            }
            if !partial(raw) {
                first_record(key, raw, x);
                assert(after.raw@ + x =~= x);
                assert(before.plain@ + (fed(key, raw).2 + to_come(after, x).0) =~= rest);
            } else {
                assert(later(key, 0) == key);
                assert(before.plain@ =~= after.plain@);
            }
        },
        ReadMove::Take(_, data) => {
            assert(before.plain@ =~= data + after.plain@);
            assert(before.plain@ + to_come(after, x).0 =~= data + rest);
        },
    }
}

proof fn reading_so_far(states: Seq<RecordReader>, moves: Seq<ReadMove>, x: Seq<u8>)
    requires
        led(states, moves),
        states[0].raw@.len() == 0,
        states[0].plain@.len() == 0,
    ensures
        partial(states.last().raw@),
        ({
            let (all, end) = stream_data(key_state(states[0].key), arrived(moves) + x);
            let (rest, e) = to_come(states.last(), x);
            all == delivered(moves) + (states.last().plain@ + rest) && end == e
        }),
    decreases moves.len(),
{
    if moves.len() == 0 {
        let start = states[0];
        assert(start.raw@ + x =~= arrived(moves) + x);
        let rest = to_come(start, x).0;
        assert(rest =~= delivered(moves) + (start.plain@ + rest));
    } else {
        let k = moves.len() - 1;
        let m = moves.last();
        let early = states.drop_last();
        let y = bytes_in(m) + x;
        assert forall|i: int| 0 <= i < k implies #[trigger] moved(
            moves.drop_last()[i],
            early[i],
            early[i + 1],
        ) by {
            assert(moved(moves[i], states[i], states[i + 1]));
        }
        reading_so_far(early, moves.drop_last(), y);
        assert(moved(moves[k], states[k], states[k + 1]));
        move_keeps(m, states[k], states[k + 1], x);
        assert(arrived(moves.drop_last()) + y =~= arrived(moves) + x);
        let head = delivered(moves.drop_last());
        let rest = states[k + 1].plain@ + to_come(states[k + 1], x).0;
        assert(head + (data_out(m) + rest) =~= delivered(moves) + rest);
    }
}

/// However the bytes of a stream are cut up on their way, and however much is asked for at a time,
/// what a fresh reader has handed out and holds ready is the data of the records that have
/// arrived in full, in order, with nothing lost or repeated.
pub proof fn reading_keeps_the_data(states: Seq<RecordReader>, moves: Seq<ReadMove>)
    requires
        led(states, moves),
        states[0].raw@.len() == 0,
        states[0].plain@.len() == 0,
    ensures
        stream_data(key_state(states[0].key), arrived(moves)) == (
            delivered(moves) + states.last().plain@,
            None::<ReadEvent>,
        ),
{
    reading_so_far(states, moves, Seq::empty());
    assert(arrived(moves) + Seq::<u8>::empty() =~= arrived(moves));
    let last = states.last();
    assert(last.raw@ + Seq::<u8>::empty() =~= last.raw@);
    assert(last.plain@ + Seq::<u8>::empty() =~= last.plain@);
}

/// When an alert or a bad record ends the stream, all data before it has been handed out or is
/// ready, and nothing is added. A record that is too long is one that ends it.
pub proof fn reading_ends_in_order(
    states: Seq<RecordReader>,
    moves: Seq<ReadMove>,
    after: RecordReader,
    bytes: Seq<u8>,
    event: ReadEvent,
)
    requires
        led(states, moves),
        states[0].raw@.len() == 0,
        states[0].plain@.len() == 0,
        bytes.len() <= missing(states.last().raw@),
        received(states.last(), after, bytes, event),
        is_end(event),
    ensures
        stream_data(key_state(states[0].key), arrived(moves) + bytes) == (
            delivered(moves) + after.plain@,
            Some(event),
        ),
{
    reading_so_far(states, moves, bytes);
    let last = states.last();
    let raw = last.raw@ + bytes;
    if last.raw@.len() >= 5 {
        assert(raw.subrange(3, 5) =~= last.raw@.subrange(3, 5));
    }
    first_record(key_state(last.key), raw, Seq::empty());
    assert(raw + Seq::<u8>::empty() =~= raw);
    assert(last.plain@ + Seq::<u8>::empty() =~= last.plain@);
}

/// A record that is all there, and no longer than one may be.
pub open spec fn is_record(raw: Seq<u8>) -> bool {
    raw.len() >= 5 && announced(raw) <= MAX_RECORD && raw.len() == 5 + announced(raw)
}

/// Each of the records opens under the key in turn, and none of them ends the stream.
pub open spec fn all_open(key: KeyState, records: Seq<Seq<u8>>) -> bool
    decreases records.len(),
{
    records.len() > 0 ==> {
        let (event, _, used) = record_effect(key, records[0]);
        is_record(records[0]) && !is_end(event) && all_open(later(key, used), records.skip(1))
    }
}

/// The data of the records, in order. Those that hold no application data add nothing.
pub open spec fn contents(key: KeyState, records: Seq<Seq<u8>>) -> Seq<u8>
    decreases records.len(),
{
    if records.len() == 0 {
        Seq::empty()
    } else {
        let (_, data, used) = record_effect(key, records[0]);
        data + contents(later(key, used), records.skip(1))
    }
}

/// One record after another.
pub open spec fn joined(records: Seq<Seq<u8>>) -> Seq<u8>
    decreases records.len(),
{
    if records.len() == 0 {
        Seq::empty()
    } else {
        records[0] + joined(records.skip(1))
    }
}

/// A stream of records that open says what the records say.
pub proof fn stream_of_records(key: KeyState, records: Seq<Seq<u8>>)
    requires
        all_open(key, records),
    ensures
        stream_data(key, joined(records)) == (contents(key, records), None::<ReadEvent>),
    decreases records.len(),
{
    if records.len() > 0 {
        let (event, data, used) = record_effect(key, records[0]);
        first_record(key, records[0], joined(records.skip(1)));
        stream_of_records(later(key, used), records.skip(1));
    }
}

/// A peer sends records that all open under the key. However their bytes are cut up, and however
/// much is asked for at a time, the data of the records comes out in order.
pub proof fn records_come_out(
    states: Seq<RecordReader>,
    moves: Seq<ReadMove>,
    records: Seq<Seq<u8>>,
)
    requires
        led(states, moves),
        states[0].raw@.len() == 0,
        states[0].plain@.len() == 0,
        arrived(moves) == joined(records),
        all_open(key_state(states[0].key), records),
    ensures
        delivered(moves) + states.last().plain@ == contents(key_state(states[0].key), records),
{
    reading_keeps_the_data(states, moves);
    stream_of_records(key_state(states[0].key), records);
}

// ---- sending ----

/// The sending side of a stream.
pub struct RecordWriter {
    pub key: RecordKey,
    /// The record that is on its way out.
    pub frame: Vec<u8>,
    /// How much of it has gone.
    pub pos: usize,
}

impl RecordWriter {
    pub open spec fn wf(&self) -> bool {
        self.key.wf() && self.pos <= self.frame@.len()
    }

    /// What is still to go out.
    pub open spec fn pending(&self) -> Seq<u8> {
        self.frame@.skip(self.pos as int)
    }

    pub fn new(key: RecordKey) -> (w: RecordWriter)
        requires
            key.wf(),
        ensures
            w.wf(),
            w.key == key,
            w.pending().len() == 0,
    {
        RecordWriter { key, frame: Vec::new(), pos: 0 }
    }

    /// Whether something is still to go out.
    pub fn busy(&self) -> (yes: bool)
        requires
            self.wf(),
        ensures
            yes == (self.pending().len() > 0),
    {
        self.pos < self.frame.len()
    }

    /// Puts data into a record, once the one before has gone. The whole of it is taken. A reader
    /// with the same key and number gets it back, if the record is not too long for it.
    pub fn write(&mut self, data: &[u8]) -> (res: Result<usize, RecordError>)
        requires
            old(self).wf(),
            old(self).pending().len() == 0,
            old(self).key.seq < u64::MAX,
        ensures
            final(self).wf(),
            data@.len() == 0 ==> res == Ok::<usize, RecordError>(0) && *final(self) == *old(self),
            data@.len() > 0 ==> {
                &&& final(self).key.seq == old(self).key.seq + 1
                &&& final(self).key.suite == old(self).key.suite
                &&& final(self).key.key@ == old(self).key.key@
                &&& final(self).key.iv@ == old(self).key.iv@
                &&& match res {
                    Ok(n) => n == data@.len() && final(self).pending() == sealed_record(
                        old(self).key.suite,
                        old(self).key.key@,
                        nonce_of(old(self).key.iv@, old(self).key.seq as nat),
                        TLS_RECORD_APPLICATION_DATA,
                        data@,
                    ) && (data@.len() + 17 <= MAX_RECORD ==> is_record(final(self).pending())
                        && record_effect(key_state(old(self).key), final(self).pending()) == (
                        ReadEvent::Data,
                        data@,
                        1nat,
                    )),
                    Err(e) => e == RecordError::Encrypt && final(self).pending().len() == 0
                        && !can_seal(suite_aead(old(self).key.suite), data@.len() + 1, 5),
                }
            },
    {
        if data.len() == 0 {
            return Ok(0);
        }
        match self.key.seal(TLS_RECORD_APPLICATION_DATA, data) {
            Ok(frame) => {
                self.frame = frame;
                self.pos = 0;
                proof {
                    assert(self.frame@.skip(0) =~= self.frame@);
                    if data@.len() + 17 <= MAX_RECORD {
                        let h = record_header(data@.len() + 17);
                        header_announces(data@.len() + 17);
                        assert(self.frame@.take(5) =~= h);
                        assert(self.frame@.subrange(3, 5) =~= h.subrange(3, 5));
                        assert(self.frame@[0] == h[0]);
                    }
                }
                Ok(data.len())
            },
            Err(e) => Err(e),
        }
    }

    /// Notes that the connection took `n` bytes of what is pending.
    pub fn wrote(&mut self, n: usize) -> (res: Result<(), RecordError>)
        requires
            old(self).wf(),
            n <= old(self).pending().len(),
        ensures
            final(self).wf(),
            final(self).key == old(self).key,
            res == if n == 0 {
                Err::<(), RecordError>(RecordError::WriteZero)
            } else {
                Ok::<(), RecordError>(())
            },
            final(self).pending() == old(self).pending().skip(n as int),
    {
        assert(self.frame@.skip(self.pos as int).skip(n as int) =~= self.frame@.skip(self.pos + n));
        assert(self.pos + n <= self.frame.len());
        self.pos = self.pos + n;
        if n == 0 {
            Err(RecordError::WriteZero)
        } else {
            Ok(())
        }
    }
}

} // verus!
