//! Datagrams that are cut into fragments, and their way back together.

use crate::fragment::{
    all_filled, chunk, chunk_count, chunk_size, first_slots, frag_header, frag_header_round_trip,
    joined, offered, udp_fragment, udp_fragments, FragHeader, Slots,
};
use vstd::prelude::*;

verus! {

/// A fragment goes to its own place, which is taken only once; fragments of other sessions, other
/// packets or another count, and what cannot be read, change nothing.
pub proof fn fragments_go_to_their_place(
    slots: Slots,
    session: u32,
    packet: u16,
    d: Seq<u8>,
    h: FragHeader,
    n: nat,
    i: int,
)
    requires
        0 <= i < slots.len(),
    ensures
        offered(slots, session, packet, d).len() == slots.len(),
        slots[i] is Some ==> offered(slots, session, packet, d)[i] == slots[i],
        frag_header(d) is Err ==> offered(slots, session, packet, d) == slots,
        frag_header(d) == Ok::<_, crate::fragment::UdpFragError>((h, n)) ==> (if h.session_id
            == session && h.packet_id == packet && h.frag_count == slots.len() && h.frag_id == i {
            slots[i] is None ==> offered(slots, session, packet, d)[i] == Some(d.skip(n as int))
        } else {
            offered(slots, session, packet, d)[i] == slots[i]
        }),
{
}

/// The first fragment that arrives fills its place, and as many places are made as it says.
pub proof fn first_fragment_makes_places(h: FragHeader, data: Seq<u8>, i: int)
    requires
        0 <= i < h.frag_count,
    ensures
        first_slots(h, data).len() == h.frag_count,
        i == h.frag_id ==> first_slots(h, data)[i] == Some(data),
        i != h.frag_id ==> first_slots(h, data)[i] is None,
{
}

/// A packet is whole once all places are filled, and is then what they hold, in their order.
pub proof fn whole_packets(slots: Slots, i: int, n: nat, d: Seq<u8>)
    ensures
        all_filled(slots) && 0 <= i < slots.len() ==> slots[i] is Some,
        (forall|k: int| 0 <= k < slots.len() ==> (#[trigger] slots[k]) is Some) ==> all_filled(slots),
        0 <= i < slots.len() && slots[i] is None ==> !all_filled(slots),
        joined(slots, 0).len() == 0,
        n < slots.len() && slots[n as int] == Some(d) ==> joined(slots, n + 1) == joined(slots, n)
            + d,
{
}

/// Data is cut into as few pieces of a size as hold it; all but the last are of that size, and they
/// follow each other.
pub proof fn pieces_follow_each_other(data: Seq<u8>, size: nat, i: int)
    requires
        size > 0,
        0 <= i < chunk_count(data.len(), size),
    ensures
        chunk_count(data.len(), size) * size >= data.len(),
        (chunk_count(data.len(), size) - 1) * size < data.len(),
        chunk(data, size, i).len() <= size,
        (i + 1) * size <= data.len() ==> chunk(data, size, i) == data.subrange(
            i * size,
            i * size + size,
        ),
        (i + 1) * size > data.len() ==> chunk(data, size, i) == data.skip(i * size),
{
    let n = data.len() as int;
    let s = size as int;
    let q = (n + s - 1) / s;
    assert(q * s >= n && (q - 1) * s < n) by (nonlinear_arith)
        requires
            s > 0,
            n >= 0,
            q == (n + s - 1) / s,
    ;
    assert(i * s <= (q - 1) * s && 0 <= i * s) by (nonlinear_arith)
        requires
            0 <= i,
            i <= q - 1,
            s > 0,
    ;
    assert((i + 1) * s == i * s + s) by (nonlinear_arith);
}

/// The fragments of a packet: as many as its pieces, each with its number, their count and the ids of
/// the session and the packet before its piece.
pub proof fn fragments_carry_pieces(session: u32, packet: u16, addr: Seq<u8>, data: Seq<u8>, i: int)
    requires
        0 <= i < chunk_count(data.len(), chunk_size(addr)),
        chunk_count(data.len(), chunk_size(addr)) <= 255,
        addr.len() < 0x4000_0000_0000_0000,
    ensures
        ({
            let n = chunk_count(data.len(), chunk_size(addr));
            let f = udp_fragments(session, packet, addr, data)[i];
            &&& udp_fragments(session, packet, addr, data).len() == n
            &&& frag_header(f) matches Ok((h, at)) && h.session_id == session && h.packet_id
                == packet && h.frag_id == i && h.frag_count == n && f.skip(at as int) == chunk(
                data,
                chunk_size(addr),
                i,
            )
        }),
{
    let size = chunk_size(addr);
    let n = chunk_count(data.len(), size);
    let h = FragHeader {
        session_id: session,
        packet_id: packet,
        frag_id: (i % 256) as u8,
        frag_count: (n % 256) as u8,
    };
    assert(udp_fragments(session, packet, addr, data)[i] == udp_fragment(
        session,
        packet,
        addr,
        data,
        i,
    ));
    frag_header_round_trip(h, addr, chunk(data, size, i));
}

} // verus!
