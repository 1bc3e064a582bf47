//! What is written to the wire is read back from it, and nothing else is.

use crate::id::Id;
use crate::network::addr::{port_octets, Addr, Ip};
use crate::network::peer::Peer;
use crate::network::peer_info::PeerInfo;
use crate::network::wire::{
    parse_addr, parse_id, parse_info, parse_ip, parse_payload, parse_peer, parse_peer_list,
    parse_peers, parse_port, parse_slot, parse_slots, parse_u64, wire_info, wire_payload,
    wire_peer, wire_peer_list, wire_peers, wire_slot, wire_slots, wire_u64, PRESENT,
};
use vstd::bytes::lemma_auto_spec_u64_to_from_le_bytes;
use vstd::prelude::*;

verus! {

/// A number that was written is read back.
pub proof fn lemma_parse_u64(v: u64, rest: Seq<u8>)
    ensures
        parse_u64(wire_u64(v) + rest) == Some((v, rest)),
        wire_u64(v).len() == 8,
{
    lemma_auto_spec_u64_to_from_le_bytes();
    let s = wire_u64(v) + rest;
    assert(s.take(8) =~= wire_u64(v));
    assert(s.skip(8) =~= rest);
}

/// An identifier that was written is read back.
pub proof fn lemma_parse_id(id: Id, rest: Seq<u8>)
    ensures
        parse_id(id@ + rest) == Some((id, rest)),
{
    let s = id@ + rest;
    id.lemma_len();
    id.lemma_from_own_octets();
    assert(s.take(8) =~= id@);
    assert(s.skip(8) =~= rest);
}

/// An IP address that was written is read back.
pub proof fn lemma_parse_ip(ip: Ip, rest: Seq<u8>)
    ensures
        parse_ip(ip.octets() + rest) == Some((ip, rest)),
{
    let s = ip.octets() + rest;
    match ip {
        Ip::V4(a) => {
            assert(s.skip(5) =~= rest);
            let b: [u8; 4] = [s[1], s[2], s[3], s[4]];
            assert(b =~= a);
        },
        Ip::V6(a) => {
            assert(s.skip(17) =~= rest);
            let b: [u8; 16] = [s[1], s[2], s[3], s[4], s[5], s[6], s[7], s[8], s[9], s[10], s[11], s[12], s[13], s[14], s[15], s[16]];
            assert(b =~= a);
        },
    }
}

/// A port that was written is read back.
pub proof fn lemma_parse_port(port: u16, rest: Seq<u8>)
    ensures
        parse_port(port_octets(port) + rest) == Some((port, rest)),
{
    let s = port_octets(port) + rest;
    assert(s.skip(2) =~= rest);
}

/// An address that was written is read back.
pub proof fn lemma_parse_addr(addr: Addr, rest: Seq<u8>)
    ensures
        parse_addr(addr.octets() + rest) == Some((addr, rest)),
{
    let after_ip = port_octets(addr.port) + rest;
    assert(addr.octets() + rest =~= addr.ip.octets() + after_ip);
    lemma_parse_ip(addr.ip, after_ip);
    lemma_parse_port(addr.port, rest);
}

/// What is known of a peer is read back as it was written.
pub proof fn lemma_parse_info(info: PeerInfo, rest: Seq<u8>)
    ensures
        parse_info(wire_info(info) + rest) == Some((info, rest)),
{
    let s = wire_info(info) + rest;
    match info.physical_distance_index {
        None => {
            assert(s.skip(1) =~= rest);
        },
        Some(v) => {
            assert(s.skip(1) =~= wire_u64(v) + rest);
            lemma_parse_u64(v, rest);
        },
    }
}

/// A peer that was written is read back.
pub proof fn lemma_parse_peer(peer: Peer, rest: Seq<u8>)
    ensures
        parse_peer(wire_peer(peer) + rest) == Some((peer, rest)),
{
    let after_addr = wire_info(peer.info) + rest;
    let after_id = peer.addr.octets() + after_addr;
    assert(wire_peer(peer) + rest =~= peer.id@ + after_id);
    lemma_parse_id(peer.id, after_id);
    lemma_parse_addr(peer.addr, after_addr);
    lemma_parse_info(peer.info, rest);
}

/// A slot that was written is read back.
pub proof fn lemma_parse_slot(slot: Option<Peer>, rest: Seq<u8>)
    ensures
        parse_slot(wire_slot(slot) + rest) == Some((slot, rest)),
{
    let s = wire_slot(slot) + rest;
    match slot {
        None => {
            assert(s.skip(1) =~= rest);
        },
        Some(p) => {
            assert(s.skip(1) =~= wire_peer(p) + rest);
            lemma_parse_peer(p, rest);
        },
    }
}

/// Slots that were written are read back.
pub proof fn lemma_parse_slots(slots: Seq<Option<Peer>>, rest: Seq<u8>)
    ensures
        parse_slots(wire_slots(slots) + rest, slots.len()) == Some((slots, rest)),
    decreases slots.len(),
{
    if slots.len() == 0 {
        assert(wire_slots(slots) + rest =~= rest);
        assert(slots =~= Seq::empty());
    } else {
        let after = wire_slots(slots.drop_first()) + rest;
        assert(wire_slots(slots) + rest =~= wire_slot(slots[0]) + after);
        lemma_parse_slot(slots[0], after);
        lemma_parse_slots(slots.drop_first(), rest);
        assert(seq![slots[0]] + slots.drop_first() =~= slots);
    }
}

/// Peers that were written are read back.
pub proof fn lemma_parse_peers(peers: Seq<Peer>, rest: Seq<u8>)
    ensures
        parse_peers(wire_peers(peers) + rest, peers.len()) == Some((peers, rest)),
    decreases peers.len(),
{
    if peers.len() == 0 {
        assert(wire_peers(peers) + rest =~= rest);
        assert(peers =~= Seq::empty());
    } else {
        let after = wire_peers(peers.drop_first()) + rest;
        assert(wire_peers(peers) + rest =~= wire_peer(peers[0]) + after);
        lemma_parse_peer(peers[0], after);
        lemma_parse_peers(peers.drop_first(), rest);
        assert(seq![peers[0]] + peers.drop_first() =~= peers);
    }
}

/// A list of peers that was written is read back, as long as its length
/// fits in 64 bits.
pub proof fn lemma_parse_peer_list(peers: Seq<Peer>, rest: Seq<u8>)
    requires
        peers.len() <= u64::MAX,
    ensures
        parse_peer_list(wire_peer_list(peers) + rest) == Some((peers, rest)),
{
    let after = wire_peers(peers) + rest;
    assert(wire_peer_list(peers) + rest =~= wire_u64(peers.len() as u64) + after);
    lemma_parse_u64(peers.len() as u64, after);
    lemma_parse_peers(peers, rest);
}

/// A payload that was written is read back, as long as its length fits in
/// 64 bits.
pub proof fn lemma_parse_payload(payload: Seq<u8>, rest: Seq<u8>)
    requires
        payload.len() <= u64::MAX,
    ensures
        parse_payload(wire_payload(payload) + rest) == Some((payload, rest)),
{
    let after = payload + rest;
    assert(wire_payload(payload) + rest =~= wire_u64(payload.len() as u64) + after);
    lemma_parse_u64(payload.len() as u64, after);
    assert(after.take(payload.len() as int) =~= payload);
    assert(after.skip(payload.len() as int) =~= rest);
}

/// A number is read only from the octets that it is written as.
pub proof fn lemma_wire_u64(s: Seq<u8>)
    requires
        parse_u64(s) is Some,
    ensures
        s == wire_u64(parse_u64(s).unwrap().0) + parse_u64(s).unwrap().1,
{
    lemma_auto_spec_u64_to_from_le_bytes();
    assert(s =~= s.take(8) + s.skip(8));
}

/// An identifier is read only from the octets that it is written as.
pub proof fn lemma_wire_id(s: Seq<u8>)
    requires
        parse_id(s) is Some,
    ensures
        s == parse_id(s).unwrap().0@ + parse_id(s).unwrap().1,
{
    Id::lemma_from_octets(s.take(8));
    assert(s =~= s.take(8) + s.skip(8));
}

/// An address is read only from the octets that it is written as.
pub proof fn lemma_wire_addr(s: Seq<u8>)
    requires
        parse_addr(s) is Some,
    ensures
        s == parse_addr(s).unwrap().0.octets() + parse_addr(s).unwrap().1,
{
    let (ip, after_ip) = parse_ip(s).unwrap();
    let (port, rest) = parse_port(after_ip).unwrap();
    assert(after_ip =~= port_octets(port) + rest);
    assert(s =~= ip.octets() + after_ip);
    assert(s =~= ip.octets() + port_octets(port) + rest);
}

/// What is known of a peer is read only from the octets that it is written
/// as.
pub proof fn lemma_wire_info(s: Seq<u8>)
    requires
        parse_info(s) is Some,
    ensures
        s == wire_info(parse_info(s).unwrap().0) + parse_info(s).unwrap().1,
{
    let (info, rest) = parse_info(s).unwrap();
    if s[0] == PRESENT {
        lemma_wire_u64(s.skip(1));
    }
    assert(s =~= seq![s[0]] + s.skip(1));
    assert(s =~= wire_info(info) + rest);
}

/// A peer is read only from the octets that it is written as.
pub proof fn lemma_wire_peer(s: Seq<u8>)
    requires
        parse_peer(s) is Some,
    ensures
        s == wire_peer(parse_peer(s).unwrap().0) + parse_peer(s).unwrap().1,
{
    let (id, after_id) = parse_id(s).unwrap();
    let (addr, after_addr) = parse_addr(after_id).unwrap();
    let (info, rest) = parse_info(after_addr).unwrap();
    lemma_wire_id(s);
    lemma_wire_addr(after_id);
    lemma_wire_info(after_addr);
    let a = id@;
    let b = addr.octets();
    let c = wire_info(info);
    assert(s == a + (b + (c + rest)));
    assert(a + (b + (c + rest)) =~= (a + b + c) + rest);
}

/// A slot is read only from the octets that it is written as.
pub proof fn lemma_wire_slot(s: Seq<u8>)
    requires
        parse_slot(s) is Some,
    ensures
        s == wire_slot(parse_slot(s).unwrap().0) + parse_slot(s).unwrap().1,
{
    let (slot, rest) = parse_slot(s).unwrap();
    if s[0] == PRESENT {
        lemma_wire_peer(s.skip(1));
    }
    assert(s =~= seq![s[0]] + s.skip(1));
    assert(s =~= wire_slot(slot) + rest);
}

/// Slots are read only from the octets that they are written as, and as
/// many as were asked for.
pub proof fn lemma_wire_slots(s: Seq<u8>, n: nat)
    requires
        parse_slots(s, n) is Some,
    ensures
        s == wire_slots(parse_slots(s, n).unwrap().0) + parse_slots(s, n).unwrap().1,
        parse_slots(s, n).unwrap().0.len() == n,
    decreases n,
{
    let (slots, rest) = parse_slots(s, n).unwrap();
    if n == 0 {
        assert(s =~= wire_slots(slots) + rest);
    } else {
        let (slot, after) = parse_slot(s).unwrap();
        let (others, end) = parse_slots(after, (n - 1) as nat).unwrap();
        lemma_wire_slot(s);
        lemma_wire_slots(after, (n - 1) as nat);
        assert(slots.drop_first() =~= others);
        assert(s =~= wire_slot(slot) + wire_slots(others) + rest);
    }
}

/// Peers are read only from the octets that they are written as, and as
/// many as were asked for.
pub proof fn lemma_wire_peers(s: Seq<u8>, n: nat)
    requires
        parse_peers(s, n) is Some,
    ensures
        s == wire_peers(parse_peers(s, n).unwrap().0) + parse_peers(s, n).unwrap().1,
        parse_peers(s, n).unwrap().0.len() == n,
    decreases n,
{
    let (peers, rest) = parse_peers(s, n).unwrap();
    if n == 0 {
        assert(s =~= wire_peers(peers) + rest);
    } else {
        let (peer, after) = parse_peer(s).unwrap();
        let (others, end) = parse_peers(after, (n - 1) as nat).unwrap();
        lemma_wire_peer(s);
        lemma_wire_peers(after, (n - 1) as nat);
        assert(peers.drop_first() =~= others);
        assert(s =~= wire_peer(peer) + wire_peers(others) + rest);
    }
}

/// A list of peers is read only from the octets that it is written as.
pub proof fn lemma_wire_peer_list(s: Seq<u8>)
    requires
        parse_peer_list(s) is Some,
    ensures
        s == wire_peer_list(parse_peer_list(s).unwrap().0) + parse_peer_list(s).unwrap().1,
        parse_peer_list(s).unwrap().0.len() <= u64::MAX,
{
    let (n, after) = parse_u64(s).unwrap();
    let (peers, rest) = parse_peers(after, n as nat).unwrap();
    lemma_wire_u64(s);
    lemma_wire_peers(after, n as nat);
    assert(s =~= wire_u64(n) + wire_peers(peers) + rest);
}

/// A payload is read only from the octets that it is written as.
pub proof fn lemma_wire_payload(s: Seq<u8>)
    requires
        parse_payload(s) is Some,
    ensures
        s == wire_payload(parse_payload(s).unwrap().0) + parse_payload(s).unwrap().1,
        parse_payload(s).unwrap().0.len() <= u64::MAX,
{
    let (n, after) = parse_u64(s).unwrap();
    let (payload, rest) = parse_payload(s).unwrap();
    lemma_wire_u64(s);
    assert(after =~= payload + rest);
    assert(s =~= wire_u64(n) + payload + rest);
}

} // verus!
