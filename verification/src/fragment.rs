//! Hysteria2 UDP datagrams: splitting a packet into fragments and putting it together
//! again.
//!
//! A datagram is a session number, a packet number, the number of the fragment and their
//! count, the address with its length in front, and a part of the data.

use crate::varint::{
    decode_varint_slice, varint_at, varint_bytes, varint_limit, varint_round_trip, write_varint,
    VarintError,
};
use crate::wire::{
    be_bytes, be_bytes_len, be_round_trip, be_value, byte_range, copy_range, put_bytes, put_u16,
    put_u32, read_u16, read_u32,
};
use vstd::prelude::*;
use vstd::utf8::encode_utf8;

verus! {

/// The size of a datagram, headers counted.
pub const MAX_DATAGRAM_PAYLOAD: usize = 1197;

/// Why a datagram cannot be read.
#[derive(Clone, Copy, Debug, PartialEq, Eq, Structural)]
pub enum UdpFragError {
    TooShort,
    BadLength(VarintError),
    AddressTruncated,
}

/// The head of a datagram.
#[derive(Clone, Copy, Debug, PartialEq, Eq, Structural)]
pub struct FragHeader {
    pub session_id: u32,
    pub packet_id: u16,
    pub frag_id: u8,
    pub frag_count: u8,
}

/// The head of a datagram with its address.
pub open spec fn udp_header(h: FragHeader, addr: Seq<u8>) -> Seq<u8> {
    be_bytes(h.session_id as nat, 4) + be_bytes(h.packet_id as nat, 2) + seq![
        h.frag_id,
        h.frag_count,
    ] + varint_bytes(addr.len() as u64) + addr
}

/// The head at the start of a datagram and where the data starts.
pub open spec fn frag_header(s: Seq<u8>) -> Result<(FragHeader, nat), UdpFragError> {
    if s.len() < 9 {
        Err(UdpFragError::TooShort)
    } else {
        match varint_at(s.skip(8)) {
            Err(e) => Err(UdpFragError::BadLength(e)),
            Ok((len, n)) => if s.len() < 8 + n + len {
                Err(UdpFragError::AddressTruncated)
            } else {
                Ok(
                    (
                        FragHeader {
                            session_id: be_value(s.subrange(0, 4)) as u32,
                            packet_id: be_value(s.subrange(4, 6)) as u16,
                            frag_id: s[6],
                            frag_count: s[7],
                        },
                        8 + n + len,
                    ),
                )
            },
        }
    }
}

/// How much data fits beside an address of the given length.
pub open spec fn chunk_size(addr: Seq<u8>) -> nat {
    let head = 8 + varint_bytes(addr.len() as u64).len() + addr.len();
    if head + 1 < MAX_DATAGRAM_PAYLOAD {
        (MAX_DATAGRAM_PAYLOAD - head) as nat
    } else {
        1
    }
}

/// How many pieces of `size` cover `len`.
pub open spec fn chunk_count(len: nat, size: nat) -> nat {
    (len + size - 1) as nat / size
}

/// The `i`-th piece of `data`.
pub open spec fn chunk(data: Seq<u8>, size: nat, i: int) -> Seq<u8> {
    data.subrange(
        i * size,
        if (i + 1) * size <= data.len() {
            (i + 1) * size
        } else {
            data.len() as int
        },
    )
}

/// The `i`-th datagram of a packet.
pub open spec fn udp_fragment(
    session_id: u32,
    packet_id: u16,
    addr: Seq<u8>,
    data: Seq<u8>,
    i: int,
) -> Seq<u8> {
    let size = chunk_size(addr);
    let h = FragHeader {
        session_id,
        packet_id,
        frag_id: (i % 256) as u8,
        frag_count: (chunk_count(data.len(), size) % 256) as u8,
    };
    udp_header(h, addr) + chunk(data, size, i)
}

/// The datagrams of a packet. A packet without data has none.
pub open spec fn udp_fragments(
    session_id: u32,
    packet_id: u16,
    addr: Seq<u8>,
    data: Seq<u8>,
) -> Seq<Seq<u8>> {
    Seq::new(
        chunk_count(data.len(), chunk_size(addr)),
        |i: int| udp_fragment(session_id, packet_id, addr, data, i),
    )
}

proof fn header_len(h: FragHeader, addr: Seq<u8>)
    ensures
        udp_header(h, addr).len() == 8 + varint_bytes(addr.len() as u64).len() + addr.len(),
        1 <= varint_bytes(addr.len() as u64).len() <= 8,
{
    be_bytes_len(h.session_id as nat, 4);
    be_bytes_len(h.packet_id as nat, 2);
    let v = addr.len() as u64;
    be_bytes_len(v as nat, 1);
    be_bytes_len((v + 0x4000) as nat, 2);
    be_bytes_len((v + 0x8000_0000) as nat, 4);
    be_bytes_len((v % 0x4000_0000_0000_0000 + 0xc000_0000_0000_0000) as nat, 8);
}

/// The head of a datagram is read back as it was written, and the data starts right
/// after it.
pub proof fn frag_header_round_trip(h: FragHeader, addr: Seq<u8>, data: Seq<u8>)
    requires
        addr.len() < varint_limit(),
    ensures
        frag_header(udp_header(h, addr) + data) == Ok::<(FragHeader, nat), UdpFragError>(
            (h, udp_header(h, addr).len()),
        ),
        (udp_header(h, addr) + data).skip(udp_header(h, addr).len() as int) == data,
{
    header_len(h, addr);
    let s = udp_header(h, addr) + data;
    let sid = be_bytes(h.session_id as nat, 4);
    let pid = be_bytes(h.packet_id as nat, 2);
    be_bytes_len(h.session_id as nat, 4);
    be_bytes_len(h.packet_id as nat, 2);
    reveal_with_fuel(byte_range, 5);
    assert(byte_range(2) == 0x1_0000);
    assert(byte_range(4) == 0x1_0000_0000);
    be_round_trip(h.session_id as nat, 4);
    be_round_trip(h.packet_id as nat, 2);
    assert(s.subrange(0, 4) =~= sid);
    assert(s.subrange(4, 6) =~= pid);
    varint_round_trip(addr.len() as u64, addr + data);
    assert(s.skip(8) =~= varint_bytes(addr.len() as u64) + (addr + data));
    assert(s.skip(udp_header(h, addr).len() as int) =~= data);
}

/// Builds the head of a datagram.
pub fn build_udp_header(
    session_id: u32,
    packet_id: u16,
    frag_id: u8,
    frag_count: u8,
    addr: &str,
) -> (buf: Vec<u8>)
    ensures
        buf@ == udp_header(
            FragHeader { session_id, packet_id, frag_id, frag_count },
            encode_utf8(addr@),
        ),
{
    let mut buf: Vec<u8> = Vec::new();
    put_u32(&mut buf, session_id);
    put_u16(&mut buf, packet_id);
    buf.push(frag_id);
    buf.push(frag_count);
    let a: &[u8] = addr.as_bytes();
    write_varint(&mut buf, a.len() as u64);
    put_bytes(&mut buf, a);
    assert(buf@ =~= udp_header(
        FragHeader { session_id, packet_id, frag_id, frag_count },
        encode_utf8(addr@),
    ));
    buf
}

/// Splits a packet into datagrams. Each carries the whole address; the number of a fragment
/// and their count are kept in one byte each.
pub fn split_udp(session_id: u32, packet_id: u16, addr: &str, data: &[u8]) -> (out: Vec<Vec<u8>>)
    ensures
        out@.map_values(|d: Vec<u8>| d@) == udp_fragments(
            session_id,
            packet_id,
            encode_utf8(addr@),
            data@,
        ),
{
    let ghost a = encode_utf8(addr@);
    let mut probe: Vec<u8> = Vec::new();
    write_varint(&mut probe, addr.as_bytes().len() as u64);
    proof {
        header_len(FragHeader { session_id, packet_id, frag_id: 0, frag_count: 0 }, a);
        assert(probe@ =~= varint_bytes(a.len() as u64));
    }
    let fixed: usize = 8 + probe.len();
    let room: usize = MAX_DATAGRAM_PAYLOAD - fixed;
    let size: usize = if addr.as_bytes().len() < room {
        room - addr.as_bytes().len()
    } else {
        1
    };
    assert(size as nat == chunk_size(a));
    let rest: usize = if data.len() % size == 0 {
        0
    } else {
        1
    };
    proof {
        count_of(data@.len(), size as nat);
        count_bounds(data@.len(), size as nat);
    }
    let count: usize = data.len() / size + rest;
    let mut out: Vec<Vec<u8>> = Vec::new();
    let mut i: usize = 0;
    let mut at: usize = 0;
    let ghost want = udp_fragments(session_id, packet_id, a, data@);
    while i < count
        invariant
            a == encode_utf8(addr@),
            want == udp_fragments(session_id, packet_id, a, data@),
            1 <= size <= MAX_DATAGRAM_PAYLOAD,
            size as nat == chunk_size(a),
            count as nat == chunk_count(data@.len(), size as nat),
            i <= count,
            data@.len() <= usize::MAX,
            at == if i * size < data@.len() {
                i * size
            } else {
                data@.len() as int
            },
            out@.map_values(|d: Vec<u8>| d@) == want.take(i as int),
            forall|k: int| 0 <= k < count ==> #[trigger] (k * size) < data@.len(),
        decreases count - i,
    {
        assert(i * size < data@.len());
        let end: usize = if data.len() - at > size {
            at + size
        } else {
            data.len()
        };
        let mut datagram: Vec<u8> = build_udp_header(
            session_id,
            packet_id,
            (i % 256) as u8,
            (count % 256) as u8,
            addr,
        );
        put_bytes(&mut datagram, &data[at..end]);
        proof {
            assert((i + 1) * size == i * size + size) by (nonlinear_arith);
            assert(datagram@ =~= want[i as int]);
        }
        let ghost before = out@;
        out.push(datagram);
        proof {
            assert(out@.map_values(|d: Vec<u8>| d@) =~= before.map_values(|d: Vec<u8>| d@).push(
                want[i as int],
            ));
            assert(want.take(i as int).push(want[i as int]) =~= want.take(i + 1));
        }
        i += 1;
        at = end;
    }
    assert(want.take(count as int) =~= want);
    out
}

/// How many pieces there are: the whole ones, and one for what is left.
proof fn count_of(len: nat, size: nat)
    requires
        size >= 1,
    ensures
        chunk_count(len, size) == len / size + if len % size == 0 {
            0nat
        } else {
            1nat
        },
        chunk_count(len, size) <= len,
{
    let q = (len / size) as int;
    let r = (len % size) as int;
    let t = len + size - 1;
    vstd::arithmetic::div_mod::lemma_fundamental_div_mod(len as int, size as int);
    if r == 0 {
        vstd::arithmetic::div_mod::lemma_fundamental_div_mod_converse(t, size as int, q, size - 1);
    } else {
        assert((q + 1) * size == size * q + size) by (nonlinear_arith);
        vstd::arithmetic::div_mod::lemma_fundamental_div_mod_converse(
            t,
            size as int,
            q + 1,
            r - 1,
        );
    }
    let n = chunk_count(len, size);
    count_bounds(len, size);
    if n > len {
        assert(((n - 1) * size) < len);
        assert((n - 1) * size >= n - 1) by (nonlinear_arith)
            requires
                n >= 1,
                size >= 1,
        ;
    }
}

/// The pieces cover the data: each starts within it, and together they reach its end.
proof fn count_bounds(len: nat, size: nat)
    requires
        size >= 1,
    ensures
        forall|k: int| 0 <= k < chunk_count(len, size) ==> #[trigger] (k * size) < len,
        chunk_count(len, size) * size >= len,
        len > 0 ==> chunk_count(len, size) >= 1,
{
    let n = chunk_count(len, size);
    let t = (len + size - 1) as nat;
    vstd::arithmetic::div_mod::lemma_fundamental_div_mod(t as int, size as int);
    assert(t == size * n + t % size);
    assert(n * size == size * n) by (nonlinear_arith);
    assert forall|k: int| 0 <= k < n implies #[trigger] (k * size) < len by {
        assert(k * size <= (n - 1) * size) by (nonlinear_arith)
            requires
                k <= n - 1,
                size >= 1,
        ;
        assert((n - 1) * size == n * size - size) by (nonlinear_arith);
    }
    if len > 0 && n == 0 {
        assert(size * n == 0) by (nonlinear_arith)
            requires
                n == 0,
        ;
    }
}

fn read_header(buf: &[u8]) -> (res: Result<(FragHeader, usize), UdpFragError>)
    ensures
        match (res, frag_header(buf@)) {
            (Ok((h, n)), Ok((g, m))) => h == g && n as nat == m && n <= buf@.len(),
            (Err(e), Err(f)) => e == f,
            _ => false,
        },
{
    if buf.len() < 9 {
        return Err(UdpFragError::TooShort);
    }
    let rest: &[u8] = &buf[8..buf.len()];
    assert(rest@ =~= buf@.skip(8));
    match decode_varint_slice(rest) {
        Err(e) => Err(UdpFragError::BadLength(e)),
        Ok((len, n)) => {
            if len > (rest.len() - n) as u64 {
                return Err(UdpFragError::AddressTruncated);
            }
            let h = FragHeader {
                session_id: read_u32(buf, 0),
                packet_id: read_u16(buf, 4),
                frag_id: buf[6],
                frag_count: buf[7],
            };
            Ok((h, 8 + n + len as usize))
        },
    }
}

/// Reads a datagram: its data, the number of the fragment, their count, the session and
/// the packet.
pub fn parse_udp_frag_header(buf: &[u8]) -> (res: Result<(Vec<u8>, u8, u8, u32, u16), UdpFragError>)
    ensures
        match (res, frag_header(buf@)) {
            (Ok((data, id, count, sid, pid)), Ok((h, n))) => data@ == buf@.skip(n as int) && h == (
            FragHeader { session_id: sid, packet_id: pid, frag_id: id, frag_count: count }),
            (Err(e), Err(f)) => e == f,
            _ => false,
        },
{
    match read_header(buf) {
        Ok((h, n)) => {
            assert(buf@.subrange(n as int, buf@.len() as int) =~= buf@.skip(n as int));
            Ok(
                (
                    copy_range(buf, n, buf.len()),
                    h.frag_id,
                    h.frag_count,
                    h.session_id,
                    h.packet_id,
                ),
            )
        },
        Err(e) => Err(e),
    }
}

// ---- reassembly ----

/// What has come of a packet: for each fragment its data, once it is there.
pub type Slots = Seq<Option<Seq<u8>>>;

/// The slots after the datagram `d` has come: the first copy of each fragment of the packet
/// is kept, everything else is ignored.
pub open spec fn offered(slots: Slots, session_id: u32, packet_id: u16, d: Seq<u8>) -> Slots {
    match frag_header(d) {
        Ok((h, n)) => if h.session_id == session_id && h.packet_id == packet_id && h.frag_count
            == slots.len() && h.frag_id < slots.len() && slots[h.frag_id as int] is None {
            slots.update(h.frag_id as int, Some(d.skip(n as int)))
        } else {
            slots
        },
        Err(_) => slots,
    }
}

/// The slots after all of `ds` have come.
pub open spec fn offered_all(
    slots: Slots,
    session_id: u32,
    packet_id: u16,
    ds: Seq<Seq<u8>>,
) -> Slots
    decreases ds.len(),
{
    if ds.len() == 0 {
        slots
    } else {
        offered(
            offered_all(slots, session_id, packet_id, ds.drop_last()),
            session_id,
            packet_id,
            ds.last(),
        )
    }
}

/// How many of the first `n` fragments are there.
pub open spec fn filled(slots: Slots, n: nat) -> nat
    decreases n,
{
    if n == 0 {
        0
    } else {
        filled(slots, (n - 1) as nat) + if slots[n - 1] is Some {
            1nat
        } else {
            0nat
        }
    }
}

/// Whether every fragment is there.
pub open spec fn all_filled(slots: Slots) -> bool {
    forall|i: int| 0 <= i < slots.len() ==> (#[trigger] slots[i]) is Some
}

/// The data of the first `n` fragments in order, as far as they are there.
pub open spec fn joined(slots: Slots, n: nat) -> Seq<u8>
    decreases n,
{
    if n == 0 {
        Seq::empty()
    } else {
        joined(slots, (n - 1) as nat) + match slots[n - 1] {
            Some(d) => d,
            None => Seq::empty(),
        }
    }
}

/// The slots once the first datagram of a packet has come.
pub open spec fn first_slots(h: FragHeader, data: Seq<u8>) -> Slots {
    Seq::new(
        h.frag_count as nat,
        |i: int|
            if i == h.frag_id {
                Some(data)
            } else {
                None::<Seq<u8>>
            },
    )
}

proof fn filled_bound(slots: Slots, n: nat)
    requires
        n <= slots.len(),
    ensures
        filled(slots, n) <= n,
        filled(slots, n) == n <==> forall|i: int| 0 <= i < n ==> (#[trigger] slots[i]) is Some,
    decreases n,
{
    if n > 0 {
        filled_bound(slots, (n - 1) as nat);
    }
}

proof fn filled_update(slots: Slots, n: nat, k: int, d: Seq<u8>)
    requires
        n <= slots.len(),
        0 <= k < slots.len(),
        slots[k] is None,
    ensures
        filled(slots.update(k, Some(d)), n) == filled(slots, n) + if k < n {
            1nat
        } else {
            0nat
        },
    decreases n,
{
    if n > 0 {
        filled_update(slots, (n - 1) as nat, k, d);
    }
}

proof fn filled_first(h: FragHeader, data: Seq<u8>, n: nat)
    requires
        n <= h.frag_count,
    ensures
        filled(first_slots(h, data), n) == if h.frag_id < n {
            1nat
        } else {
            0nat
        },
    decreases n,
{
    if n > 0 {
        filled_first(h, data, (n - 1) as nat);
    }
}

/// The slots of a packet in which everything that is there is the right piece.
spec fn slots_agree(slots: Slots, pieces: Seq<Seq<u8>>) -> bool {
    &&& slots.len() == pieces.len()
    &&& forall|i: int|
        0 <= i < slots.len() ==> ((#[trigger] slots[i]) is None || slots[i] == Some(pieces[i]))
}

/// `d` carries the `i`-th of the pieces of a packet. Its address may be any.
pub open spec fn carries(
    d: Seq<u8>,
    session_id: u32,
    packet_id: u16,
    pieces: Seq<Seq<u8>>,
    i: int,
) -> bool {
    frag_header(d) matches Ok((h, n)) && h == (FragHeader {
        session_id,
        packet_id,
        frag_id: i as u8,
        frag_count: pieces.len() as u8,
    }) && d.skip(n as int) == pieces[i]
}

/// `d` carries one of the pieces.
pub open spec fn carries_one(
    d: Seq<u8>,
    session_id: u32,
    packet_id: u16,
    pieces: Seq<Seq<u8>>,
) -> bool {
    exists|i: int|
        0 <= i < pieces.len() && #[trigger] carries(d, session_id, packet_id, pieces, i)
}

/// `d` carries one of the pieces, or is none that could be taken for one that does.
pub open spec fn harmless(
    d: Seq<u8>,
    session_id: u32,
    packet_id: u16,
    pieces: Seq<Seq<u8>>,
) -> bool {
    ||| carries_one(d, session_id, packet_id, pieces)
    ||| match frag_header(d) {
        Ok((h, _)) => h.session_id != session_id || h.packet_id != packet_id || h.frag_count
            != pieces.len() || h.frag_id >= pieces.len(),
        Err(_) => true,
    }
}

/// One of the datagrams carries the `i`-th piece.
pub open spec fn arrives(
    ds: Seq<Seq<u8>>,
    session_id: u32,
    packet_id: u16,
    pieces: Seq<Seq<u8>>,
    i: int,
) -> bool {
    exists|k: int|
        0 <= k < ds.len() && carries(#[trigger] ds[k], session_id, packet_id, pieces, i)
}

/// The first `n` pieces, one after another.
pub open spec fn pieces_joined(pieces: Seq<Seq<u8>>, n: nat) -> Seq<u8>
    decreases n,
{
    if n == 0 {
        Seq::empty()
    } else {
        pieces_joined(pieces, (n - 1) as nat) + pieces[n - 1]
    }
}

proof fn offers_agree(
    slots: Slots,
    session_id: u32,
    packet_id: u16,
    pieces: Seq<Seq<u8>>,
    ds: Seq<Seq<u8>>,
)
    requires
        pieces.len() <= 255,
        slots_agree(slots, pieces),
        forall|k: int|
            0 <= k < ds.len() ==> harmless(#[trigger] ds[k], session_id, packet_id, pieces),
    ensures
        ({
            let after = offered_all(slots, session_id, packet_id, ds);
            &&& slots_agree(after, pieces)
            &&& forall|i: int|
                0 <= i < slots.len() && (#[trigger] slots[i]) is Some ==> after[i] is Some
            &&& forall|i: int|
                0 <= i < slots.len() && #[trigger] arrives(ds, session_id, packet_id, pieces, i)
                    ==> after[i] is Some
        }),
    decreases ds.len(),
{
    if ds.len() > 0 {
        let front = ds.drop_last();
        let d = ds.last();
        assert forall|k: int| 0 <= k < front.len() implies harmless(
            #[trigger] front[k],
            session_id,
            packet_id,
            pieces,
        ) by {
            assert(front[k] == ds[k]);
        }
        offers_agree(slots, session_id, packet_id, pieces, front);
        let mid = offered_all(slots, session_id, packet_id, front);
        let after = offered(mid, session_id, packet_id, d);
        assert(harmless(ds[ds.len() - 1], session_id, packet_id, pieces));
        assert forall|i: int|
            0 <= i < slots.len() && #[trigger] arrives(
                ds,
                session_id,
                packet_id,
                pieces,
                i,
            ) implies after[i] is Some by {
            let k = choose|k: int|
                0 <= k < ds.len() && carries(
                    #[trigger] ds[k],
                    session_id,
                    packet_id,
                    pieces,
                    i,
                );
            if k < front.len() {
                assert(front[k] == ds[k]);
                assert(arrives(front, session_id, packet_id, pieces, i));
            }
        }
    }
}

proof fn slots_join(slots: Slots, pieces: Seq<Seq<u8>>, n: nat)
    requires
        slots_agree(slots, pieces),
        all_filled(slots),
        n <= slots.len(),
    ensures
        joined(slots, n) == pieces_joined(pieces, n),
    decreases n,
{
    if n > 0 {
        slots_join(slots, pieces, (n - 1) as nat);
        assert(slots[n - 1] is Some);
    }
}

/// A packet comes out of reassembly as its pieces in order, however it was cut into them:
/// whichever piece comes first, in whatever order and however often the others follow, and
/// whatever datagrams of other packets come between, once every piece has come the packet is
/// complete. A packet of one piece is complete at once. There must not be more pieces than one byte
/// can count.
pub proof fn pieces_come_together(
    session_id: u32,
    packet_id: u16,
    pieces: Seq<Seq<u8>>,
    first: int,
    d: Seq<u8>,
    ds: Seq<Seq<u8>>,
)
    requires
        0 <= first < pieces.len() <= 255,
        carries(d, session_id, packet_id, pieces, first),
        forall|k: int|
            0 <= k < ds.len() ==> harmless(#[trigger] ds[k], session_id, packet_id, pieces),
        forall|i: int|
            0 <= i < pieces.len() && i != first ==> #[trigger] arrives(
                ds,
                session_id,
                packet_id,
                pieces,
                i,
            ),
    ensures
        frag_header(d) matches Ok((h, n)) && ({
            let end = offered_all(first_slots(h, d.skip(n as int)), session_id, packet_id, ds);
            &&& all_filled(end)
            &&& joined(end, end.len()) == pieces_joined(pieces, pieces.len())
            &&& pieces.len() == 1 ==> d.skip(n as int) == pieces_joined(pieces, pieces.len())
        }),
{
    let (h, n) = frag_header(d)->Ok_0;
    if pieces.len() == 1 {
        reveal_with_fuel(pieces_joined, 2);
        assert(Seq::<u8>::empty() + pieces[0] =~= pieces[0]);
    }
    let start = first_slots(h, d.skip(n as int));
    offers_agree(start, session_id, packet_id, pieces, ds);
    let end = offered_all(start, session_id, packet_id, ds);
    assert forall|i: int| 0 <= i < end.len() implies (#[trigger] end[i]) is Some by {
        if i == first {
            assert(start[i] is Some);
        } else {
            assert(arrives(ds, session_id, packet_id, pieces, i));
        }
    }
    slots_join(end, pieces, pieces.len());
}

/// The pieces that a packet is cut into.
pub open spec fn chunks(data: Seq<u8>, size: nat) -> Seq<Seq<u8>> {
    Seq::new(chunk_count(data.len(), size), |i: int| chunk(data, size, i))
}

proof fn fragment_read(session_id: u32, packet_id: u16, addr: Seq<u8>, data: Seq<u8>, i: int)
    requires
        addr.len() < varint_limit(),
        0 <= i < chunk_count(data.len(), chunk_size(addr)) <= 255,
    ensures
        carries(
            udp_fragment(session_id, packet_id, addr, data, i),
            session_id,
            packet_id,
            chunks(data, chunk_size(addr)),
            i,
        ),
{
    let size = chunk_size(addr);
    let h = FragHeader {
        session_id,
        packet_id,
        frag_id: (i % 256) as u8,
        frag_count: (chunk_count(data.len(), size) % 256) as u8,
    };
    frag_header_round_trip(h, addr, chunk(data, size, i));
}

proof fn chunks_join(data: Seq<u8>, size: nat, n: nat)
    requires
        size >= 1,
        n <= chunk_count(data.len(), size),
    ensures
        pieces_joined(chunks(data, size), n) == data.take(
            if n * size <= data.len() {
                (n * size) as int
            } else {
                data.len() as int
            },
        ),
    decreases n,
{
    count_bounds(data.len(), size);
    if n == 0 {
        assert(0 * size == 0) by (nonlinear_arith);
        assert(data.take(0) =~= Seq::empty());
    } else {
        let m = (n - 1) as nat;
        chunks_join(data, size, m);
        assert(m * size < data.len());
        assert((m + 1) * size == m * size + size) by (nonlinear_arith);
        let end = if n * size <= data.len() {
            (n * size) as int
        } else {
            data.len() as int
        };
        assert(data.take((m * size) as int) + chunk(data, size, m as int) =~= data.take(end));
    }
}

/// A packet that was split here comes out of reassembly as it went in, whichever of its
/// datagrams comes first, in whatever order and however often the others follow, and whatever
/// datagrams of other packets come between.
pub proof fn reassembly_restores(
    session_id: u32,
    packet_id: u16,
    addr: Seq<u8>,
    data: Seq<u8>,
    first: int,
    ds: Seq<Seq<u8>>,
)
    requires
        addr.len() < varint_limit(),
        chunk_count(data.len(), chunk_size(addr)) <= 255,
        0 <= first < chunk_count(data.len(), chunk_size(addr)),
        forall|k: int|
            0 <= k < ds.len() ==> harmless(
                #[trigger] ds[k],
                session_id,
                packet_id,
                chunks(data, chunk_size(addr)),
            ),
        forall|i: int|
            0 <= i < chunk_count(data.len(), chunk_size(addr)) && i != first ==> ds.contains(
                #[trigger] udp_fragment(session_id, packet_id, addr, data, i),
            ),
    ensures
        ({
            let d = udp_fragment(session_id, packet_id, addr, data, first);
            frag_header(d) matches Ok((h, n)) && ({
                let end = offered_all(
                    first_slots(h, d.skip(n as int)),
                    session_id,
                    packet_id,
                    ds,
                );
                all_filled(end) && joined(end, end.len()) == data
            })
        }),
{
    let size = chunk_size(addr);
    let pieces = chunks(data, size);
    let d = udp_fragment(session_id, packet_id, addr, data, first);
    fragment_read(session_id, packet_id, addr, data, first);
    assert forall|i: int| 0 <= i < pieces.len() && i != first implies #[trigger] arrives(
        ds,
        session_id,
        packet_id,
        pieces,
        i,
    ) by {
        let f = udp_fragment(session_id, packet_id, addr, data, i);
        fragment_read(session_id, packet_id, addr, data, i);
        assert(ds.contains(f));
        let k = choose|k: int| 0 <= k < ds.len() && ds[k] == f;
        assert(carries(ds[k], session_id, packet_id, pieces, i));
    }
    pieces_come_together(session_id, packet_id, pieces, first, d, ds);
    chunks_join(data, size, pieces.len());
    count_bounds(data.len(), size);
    assert(data.take(data.len() as int) =~= data);
}

/// A packet that is being put together.
pub struct Reassembly {
    session_id: u32,
    packet_id: u16,
    frags: Vec<Option<Vec<u8>>>,
    received: usize,
}

/// What the first datagram of a packet amounts to.
pub enum Start {
    /// The whole packet.
    Whole(Vec<u8>),
    /// One of several fragments.
    Partial(Reassembly),
}

impl Reassembly {
    pub closed spec fn slots(&self) -> Slots {
        self.frags@.map_values(
            |f: Option<Vec<u8>>|
                match f {
                    Some(d) => Some(d@),
                    None => None,
                },
        )
    }

    /// The session and the packet that the fragments belong to.
    pub closed spec fn key(&self) -> (u32, u16) {
        (self.session_id, self.packet_id)
    }

    pub closed spec fn wf(&self) -> bool {
        &&& self.slots().len() <= 255
        &&& self.received as nat == filled(self.slots(), self.slots().len())
    }

    /// Whether all fragments are there.
    pub fn complete(&self) -> (done: bool)
        requires
            self.wf(),
        ensures
            done == all_filled(self.slots()),
    {
        proof {
            filled_bound(self.slots(), self.slots().len());
        }
        self.received == self.frags.len()
    }

    /// Takes a further datagram of the session.
    pub fn offer(&mut self, buf: &[u8])
        requires
            old(self).wf(),
        ensures
            final(self).wf(),
            final(self).key() == old(self).key(),
            final(self).slots() == offered(
                old(self).slots(),
                old(self).key().0,
                old(self).key().1,
                buf@,
            ),
    {
        match read_header(buf) {
            Ok((h, n)) => {
                let idx: usize = h.frag_id as usize;
                if h.session_id == self.session_id && h.packet_id == self.packet_id
                    && h.frag_count as usize == self.frags.len() && idx < self.frags.len()
                    && self.frags[idx].is_none() {
                    let data: Vec<u8> = copy_range(buf, n, buf.len());
                    let ghost before = self.slots();
                    proof {
                        assert(data@ =~= buf@.skip(n as int));
                        filled_update(before, before.len(), idx as int, data@);
                        filled_bound(before, before.len());
                    }
                    self.frags[idx] = Some(data);
                    self.received = self.received + 1;
                    assert(self.slots() =~= before.update(idx as int, Some(buf@.skip(n as int))));
                }
            },
            Err(_) => {},
        }
    }

    /// The data of the fragments in order.
    pub fn finish(&self) -> (data: Vec<u8>)
        requires
            self.wf(),
        ensures
            data@ == joined(self.slots(), self.slots().len()),
    {
        let mut data: Vec<u8> = Vec::new();
        let mut i: usize = 0;
        while i < self.frags.len()
            invariant
                i <= self.frags@.len(),
                self.slots().len() == self.frags@.len(),
                data@ == joined(self.slots(), i as nat),
            decreases self.frags@.len() - i,
        {
            match &self.frags[i] {
                Some(d) => {
                    put_bytes(&mut data, d);
                },
                None => {},
            }
            i += 1;
            assert(data@ =~= joined(self.slots(), i as nat));
        }
        data
    }
}

/// Takes the first datagram of a packet.
pub fn start_reassembly(first: &[u8]) -> (res: Result<Start, UdpFragError>)
    requires
        frag_header(first@) matches Ok((h, _)) ==> h.frag_count == 1 || h.frag_id < h.frag_count,
    ensures
        match (res, frag_header(first@)) {
            (Err(e), Err(f)) => e == f,
            (Ok(Start::Whole(data)), Ok((h, n))) => h.frag_count == 1 && data@ == first@.skip(
                n as int,
            ),
            (Ok(Start::Partial(r)), Ok((h, n))) => h.frag_count != 1 && r.wf() && r.key() == (
                h.session_id,
                h.packet_id,
            ) && r.slots() == first_slots(h, first@.skip(n as int)),
            _ => false,
        },
{
    let (h, n): (FragHeader, usize) = match read_header(first) {
        Ok(x) => x,
        Err(e) => {
            return Err(e);
        },
    };
    let data: Vec<u8> = copy_range(first, n, first.len());
    assert(data@ =~= first@.skip(n as int));
    if h.frag_count == 1 {
        return Ok(Start::Whole(data));
    }
    let mut frags: Vec<Option<Vec<u8>>> = Vec::new();
    while frags.len() < h.frag_count as usize
        invariant
            frags@.len() <= h.frag_count,
            forall|i: int| 0 <= i < frags@.len() ==> frags@[i] is None,
        decreases h.frag_count - frags@.len(),
    {
        frags.push(None);
    }
    frags[h.frag_id as usize] = Some(data);
    let r = Reassembly { session_id: h.session_id, packet_id: h.packet_id, frags, received: 1 };
    proof {
        assert(r.slots() =~= first_slots(h, first@.skip(n as int)));
        filled_first(h, first@.skip(n as int), h.frag_count as nat);
    }
    Ok(Start::Partial(r))
}

} // verus!
