//! Writing values to the wire.

use crate::id::Id;
use crate::network::peer::Peer;
use crate::network::peer_info::PeerInfo;
use crate::network::routing::routing_table_row::RoutingTableRow;
use crate::network::wire::{
    wire_info, wire_payload, wire_peer, wire_peer_list, wire_peers, wire_slot, wire_slots,
    wire_u64, ABSENT, PRESENT,
};
use vstd::bytes::u64_to_le_bytes;
use vstd::prelude::*;

verus! {

/// Appends the octets of a 64-bit number.
pub(crate) fn write_u64(v: u64, out: &mut Vec<u8>)
    ensures
        final(out)@ == old(out)@ + wire_u64(v),
{
    let mut octets = u64_to_le_bytes(v);
    out.append(&mut octets);
}

/// Appends the octets of an identifier.
pub(crate) fn write_id(id: &Id, out: &mut Vec<u8>)
    ensures
        final(out)@ == old(out)@ + id@,
{
    let ghost start = out@;
    let octets: [u8; 8] = id.octets();
    let mut i: usize = 0;
    while i < 8
        invariant
            i <= 8,
            octets@ == id@,
            out@ == start + id@.take(i as int),
        decreases 8 - i,
    {
        out.push(octets[i]);
        assert(id@.take(i as int + 1) =~= id@.take(i as int).push(id@[i as int]));
        i = i + 1;
    }
    assert(id@.take(8) =~= id@);
}

/// Appends the octets of what is known of a peer.
pub(crate) fn write_info(info: &PeerInfo, out: &mut Vec<u8>)
    ensures
        final(out)@ == old(out)@ + wire_info(*info),
{
    let ghost start = out@;
    match info.physical_distance_index {
        None => {
            out.push(ABSENT);
        },
        Some(v) => {
            out.push(PRESENT);
            write_u64(v, out);
        },
    }
    assert(out@ =~= start + wire_info(*info));
}

/// Appends the octets of a peer.
pub(crate) fn write_peer(peer: &Peer, out: &mut Vec<u8>)
    ensures
        final(out)@ == old(out)@ + wire_peer(*peer),
{
    let ghost start = out@;
    write_id(&peer.id, out);
    peer.addr.write_octets(out);
    write_info(&peer.info, out);
    assert(out@ =~= start + wire_peer(*peer));
}

/// Appends the octets of a slot.
pub(crate) fn write_slot(slot: &Option<Peer>, out: &mut Vec<u8>)
    ensures
        final(out)@ == old(out)@ + wire_slot(*slot),
{
    let ghost start = out@;
    match slot {
        None => {
            out.push(ABSENT);
        },
        Some(p) => {
            out.push(PRESENT);
            write_peer(p, out);
        },
    }
    assert(out@ =~= start + wire_slot(*slot));
}

/// Appends the octets of the sixteen slots of a row.
pub(crate) fn write_row(row: &RoutingTableRow, out: &mut Vec<u8>)
    ensures
        final(out)@ == old(out)@ + wire_slots(row@),
{
    let ghost start = out@;
    proof {
        row.lemma_len();
        assert(row@.skip(0) =~= row@);
    }
    let mut k: u8 = 0;
    while k < 16
        invariant
            k <= 16,
            row@.len() == 16,
            out@ + wire_slots(row@.skip(k as int)) == start + wire_slots(row@),
        decreases 16 - k,
    {
        let ghost before = out@;
        write_slot(row.get(k), out);
        proof {
            let tail = row@.skip(k as int);
            assert(tail.drop_first() =~= row@.skip(k as int + 1));
            assert(out@ + wire_slots(row@.skip(k as int + 1)) =~= before + wire_slots(tail));
        }
        k = k + 1;
    }
    assert(out@ =~= out@ + wire_slots(row@.skip(16)));
}

/// Appends the octets of a list of peers: their number, then the peers.
pub(crate) fn write_peer_list(peers: &Vec<Peer>, out: &mut Vec<u8>)
    ensures
        final(out)@ == old(out)@ + wire_peer_list(peers@),
{
    let ghost start = out@;
    write_u64(peers.len() as u64, out);
    let ghost counted = out@;
    proof {
        assert(peers@.skip(0) =~= peers@);
    }
    let mut k: usize = 0;
    while k < peers.len()
        invariant
            k <= peers.len(),
            out@ + wire_peers(peers@.skip(k as int)) == counted + wire_peers(peers@),
        decreases peers.len() - k,
    {
        let ghost before = out@;
        write_peer(&peers[k], out);
        proof {
            let tail = peers@.skip(k as int);
            assert(tail.drop_first() =~= peers@.skip(k as int + 1));
            assert(out@ + wire_peers(peers@.skip(k as int + 1)) =~= before + wire_peers(tail));
        }
        k = k + 1;
    }
    assert(out@ =~= out@ + wire_peers(peers@.skip(peers.len() as int)));
    assert(out@ =~= start + wire_peer_list(peers@));
}

/// Appends the octets of a payload: its length, then its octets.
pub(crate) fn write_payload(payload: &Vec<u8>, out: &mut Vec<u8>)
    ensures
        final(out)@ == old(out)@ + wire_payload(payload@),
{
    let ghost start = out@;
    write_u64(payload.len() as u64, out);
    let ghost counted = out@;
    let mut k: usize = 0;
    while k < payload.len()
        invariant
            k <= payload.len(),
            out@ == counted + payload@.take(k as int),
        decreases payload.len() - k,
    {
        out.push(payload[k]);
        assert(payload@.take(k as int + 1) =~= payload@.take(k as int).push(payload@[k as int]));
        k = k + 1;
    }
    assert(payload@.take(payload.len() as int) =~= payload@);
    assert(out@ =~= start + wire_payload(payload@));
}

} // verus!
