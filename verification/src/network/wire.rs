//! The form of packets on the wire.
//!
//! A packet is the tag of its kind and then its fields in the order of their
//! declaration. An identifier is its eight octets. A 64-bit number is eight
//! octets, the least significant first. An address is the tag of its family,
//! the octets of the IP address, and the port in network order. A value that
//! may be absent follows a mark of one octet. A list follows its length as a
//! 64-bit number. Nothing is padded, and nothing may follow a packet.

use crate::id::Id;
use crate::network::addr::{Addr, Ip, TAG_V4, TAG_V6};
use crate::network::peer::Peer;
use crate::network::peer_info::PeerInfo;
use vstd::bytes::{spec_u64_from_le_bytes, spec_u64_to_le_bytes};
use vstd::prelude::*;

pub mod laws;
pub mod read;
pub mod write;

verus! {

/// The octet that marks an absent value.
pub const ABSENT: u8 = 0;

/// The octet that marks a present value.
pub const PRESENT: u8 = 1;

/// What reading a value off the front of some octets gives: the value and
/// the octets after it, or nothing where the octets do not start with one.
pub type Parsed<T> = Option<(T, Seq<u8>)>;

/// The eight octets of a 64-bit number, the least significant first.
pub open spec fn wire_u64(v: u64) -> Seq<u8> {
    spec_u64_to_le_bytes(v)
}

/// The octets of what is known of a peer: a mark, and the index where there
/// is one.
pub open spec fn wire_info(info: PeerInfo) -> Seq<u8> {
    match info.physical_distance_index {
        None => seq![ABSENT],
        Some(v) => seq![PRESENT] + wire_u64(v),
    }
}

/// The octets of a peer: its identifier, its address, and what is known of
/// it.
pub open spec fn wire_peer(peer: Peer) -> Seq<u8> {
    peer.id@ + peer.addr.octets() + wire_info(peer.info)
}

/// The octets of a slot: a mark, and the peer where there is one.
pub open spec fn wire_slot(slot: Option<Peer>) -> Seq<u8> {
    match slot {
        None => seq![ABSENT],
        Some(p) => seq![PRESENT] + wire_peer(p),
    }
}

/// The octets of some slots, one after the other.
pub open spec fn wire_slots(slots: Seq<Option<Peer>>) -> Seq<u8>
    decreases slots.len(),
{
    if slots.len() == 0 {
        Seq::empty()
    } else {
        wire_slot(slots[0]) + wire_slots(slots.drop_first())
    }
}

/// The octets of some peers, one after the other.
pub open spec fn wire_peers(peers: Seq<Peer>) -> Seq<u8>
    decreases peers.len(),
{
    if peers.len() == 0 {
        Seq::empty()
    } else {
        wire_peer(peers[0]) + wire_peers(peers.drop_first())
    }
}

/// The octets of a list of peers: their number, then the peers.
pub open spec fn wire_peer_list(peers: Seq<Peer>) -> Seq<u8> {
    wire_u64(peers.len() as u64) + wire_peers(peers)
}

/// The octets of a payload: its length, then its octets.
pub open spec fn wire_payload(payload: Seq<u8>) -> Seq<u8> {
    wire_u64(payload.len() as u64) + payload
}

/// Reads one octet.
pub open spec fn parse_u8(s: Seq<u8>) -> Parsed<u8> {
    if s.len() >= 1 {
        Some((s[0], s.skip(1)))
    } else {
        None
    }
}

/// Reads a 64-bit number.
pub open spec fn parse_u64(s: Seq<u8>) -> Parsed<u64> {
    if s.len() >= 8 {
        Some((spec_u64_from_le_bytes(s.take(8)), s.skip(8)))
    } else {
        None
    }
}

/// Reads an identifier.
pub open spec fn parse_id(s: Seq<u8>) -> Parsed<Id> {
    if s.len() >= 8 {
        Some((Id::from_octets(s.take(8)), s.skip(8)))
    } else {
        None
    }
}

/// Reads an IP address: the tag of its family decides how many octets
/// follow.
pub open spec fn parse_ip(s: Seq<u8>) -> Parsed<Ip> {
    if s.len() >= 5 && s[0] == TAG_V4 {
        Some((Ip::V4([s[1], s[2], s[3], s[4]]), s.skip(5)))
    } else if s.len() >= 17 && s[0] == TAG_V6 {
        Some((Ip::V6([s[1], s[2], s[3], s[4], s[5], s[6], s[7], s[8], s[9], s[10], s[11], s[12], s[13], s[14], s[15], s[16]]), s.skip(17)))
    } else {
        None
    }
}

/// Reads a port.
pub open spec fn parse_port(s: Seq<u8>) -> Parsed<u16> {
    if s.len() >= 2 {
        Some(((s[0] * 256 + s[1]) as u16, s.skip(2)))
    } else {
        None
    }
}

/// Reads an address.
pub open spec fn parse_addr(s: Seq<u8>) -> Parsed<Addr> {
    match parse_ip(s) {
        Some((ip, after_ip)) => match parse_port(after_ip) {
            Some((port, rest)) => Some((Addr { ip, port }, rest)),
            None => None,
        },
        None => None,
    }
}

/// Reads what is known of a peer.
pub open spec fn parse_info(s: Seq<u8>) -> Parsed<PeerInfo> {
    if s.len() >= 1 && s[0] == ABSENT {
        Some((PeerInfo { physical_distance_index: None }, s.skip(1)))
    } else if s.len() >= 1 && s[0] == PRESENT {
        match parse_u64(s.skip(1)) {
            Some((v, rest)) => Some((PeerInfo { physical_distance_index: Some(v) }, rest)),
            None => None,
        }
    } else {
        None
    }
}

/// Reads a peer.
pub open spec fn parse_peer(s: Seq<u8>) -> Parsed<Peer> {
    match parse_id(s) {
        Some((id, after_id)) => match parse_addr(after_id) {
            Some((addr, after_addr)) => match parse_info(after_addr) {
                Some((info, rest)) => Some((Peer { id, addr, info }, rest)),
                None => None,
            },
            None => None,
        },
        None => None,
    }
}

/// Reads a slot.
pub open spec fn parse_slot(s: Seq<u8>) -> Parsed<Option<Peer>> {
    if s.len() >= 1 && s[0] == ABSENT {
        Some((None, s.skip(1)))
    } else if s.len() >= 1 && s[0] == PRESENT {
        match parse_peer(s.skip(1)) {
            Some((p, rest)) => Some((Some(p), rest)),
            None => None,
        }
    } else {
        None
    }
}

/// Reads `n` slots.
pub open spec fn parse_slots(s: Seq<u8>, n: nat) -> Parsed<Seq<Option<Peer>>>
    decreases n,
{
    if n == 0 {
        Some((Seq::empty(), s))
    } else {
        match parse_slot(s) {
            Some((slot, after)) => match parse_slots(after, (n - 1) as nat) {
                Some((slots, rest)) => Some((seq![slot] + slots, rest)),
                None => None,
            },
            None => None,
        }
    }
}

/// Reads `n` peers.
pub open spec fn parse_peers(s: Seq<u8>, n: nat) -> Parsed<Seq<Peer>>
    decreases n,
{
    if n == 0 {
        Some((Seq::empty(), s))
    } else {
        match parse_peer(s) {
            Some((peer, after)) => match parse_peers(after, (n - 1) as nat) {
                Some((peers, rest)) => Some((seq![peer] + peers, rest)),
                None => None,
            },
            None => None,
        }
    }
}

/// Reads a list of peers: their number, then that many peers.
pub open spec fn parse_peer_list(s: Seq<u8>) -> Parsed<Seq<Peer>> {
    match parse_u64(s) {
        Some((n, after)) => parse_peers(after, n as nat),
        None => None,
    }
}

/// Reads a payload: its length, then that many octets.
pub open spec fn parse_payload(s: Seq<u8>) -> Parsed<Seq<u8>> {
    match parse_u64(s) {
        Some((n, after)) => if after.len() >= n {
            Some((after.take(n as int), after.skip(n as int)))
        } else {
            None
        },
        None => None,
    }
}

} // verus!
