//! The packets of the protocol and their form on the wire.

use crate::id::Id;
use crate::network::error::NetworkError;
use crate::network::peer::Peer;
use crate::network::routing::routing_table_row::RoutingTableRow;
use crate::network::wire::laws::{
    lemma_parse_id, lemma_parse_payload, lemma_parse_peer, lemma_parse_peer_list,
    lemma_parse_slots, lemma_parse_u64, lemma_wire_id, lemma_wire_payload, lemma_wire_peer,
    lemma_wire_peer_list, lemma_wire_slots, lemma_wire_u64,
};
use crate::network::wire::read::{
    read_id, read_payload, read_peer, read_peer_list, read_row, read_u64, read_u8,
};
use crate::network::wire::write::{
    write_id, write_payload, write_peer, write_peer_list, write_row, write_u64,
};
use crate::network::wire::{
    parse_id, parse_payload, parse_peer, parse_peer_list, parse_slots, parse_u64, parse_u8,
    wire_payload, wire_peer, wire_peer_list, wire_slots, wire_u64,
};
use vstd::prelude::*;

verus! {

/// The tag of a `JoinRequest` on the wire.
pub const TAG_JOIN_REQUEST: u8 = 0;

/// The tag of a `PeerIsJoining` on the wire.
pub const TAG_PEER_IS_JOINING: u8 = 1;

/// The tag of a `JoinResponse` on the wire.
pub const TAG_JOIN_RESPONSE: u8 = 2;

/// The tag of a `Ping` on the wire.
pub const TAG_PING: u8 = 3;

/// The tag of a `Pong` on the wire.
pub const TAG_PONG: u8 = 4;

/// The tag of a `Message` on the wire.
pub const TAG_MESSAGE: u8 = 5;

/// What the nodes of the overlay say to each other.
#[derive(Debug, Clone, PartialEq, Eq, Hash)]
pub enum Packet {
    /// Sent to a node of the overlay by a node that wants to join it.
    JoinRequest,
    /// Sent along the route towards the applicant's identifier: the receiver
    /// answers the applicant with a row of its table and passes the packet
    /// on.
    PeerIsJoining { applicant: Peer, hop_count: u8 },
    /// Sent to the applicant by every node on the route: one row of the
    /// sender's table and its leaves.
    JoinResponse {
        applicant_id: Id,
        routing_table_row: RoutingTableRow,
        leaves: Vec<Peer>,
        hop_count: u8,
    },
    /// Asks the receiver to answer with a `Pong` of the same nonce.
    Ping { nonce: u64 },
    /// The answer to a `Ping`.
    Pong { nonce: u64 },
    /// A payload for the node that is closest to `key`.
    Message { key: Id, payload: Vec<u8> },
}

/// A packet as contracts see it.
pub enum PacketView {
    JoinRequest,
    PeerIsJoining { applicant: Peer, hop_count: u8 },
    JoinResponse {
        applicant_id: Id,
        routing_table_row: RoutingTableRow,
        leaves: Seq<Peer>,
        hop_count: u8,
    },
    Ping { nonce: u64 },
    Pong { nonce: u64 },
    Message { key: Id, payload: Seq<u8> },
}

impl View for Packet {
    type V = PacketView;

    open spec fn view(&self) -> PacketView {
        match *self {
            Packet::JoinRequest => PacketView::JoinRequest,
            Packet::PeerIsJoining { applicant, hop_count } => PacketView::PeerIsJoining {
                applicant,
                hop_count,
            },
            Packet::JoinResponse {
                applicant_id,
                routing_table_row,
                leaves,
                hop_count,
            } => PacketView::JoinResponse {
                applicant_id,
                routing_table_row,
                leaves: leaves@,
                hop_count,
            },
            Packet::Ping { nonce } => PacketView::Ping { nonce },
            Packet::Pong { nonce } => PacketView::Pong { nonce },
            Packet::Message { key, payload } => PacketView::Message { key, payload: payload@ },
        }
    }
}

impl PacketView {
    /// The lengths of the lists of the packet fit in 64 bits, as those of
    /// every packet in memory do.
    pub open spec fn fits(&self) -> bool {
        match *self {
            PacketView::JoinResponse { leaves, .. } => leaves.len() <= u64::MAX,
            PacketView::Message { payload, .. } => payload.len() <= u64::MAX,
            _ => true,
        }
    }

    /// The octets of the packet on the wire: the tag of its kind, then its
    /// fields in the order of their declaration.
    pub open spec fn wire(&self) -> Seq<u8> {
        match *self {
            PacketView::JoinRequest => seq![TAG_JOIN_REQUEST],
            PacketView::PeerIsJoining { applicant, hop_count } => seq![TAG_PEER_IS_JOINING]
                + wire_peer(applicant) + seq![hop_count],
            PacketView::JoinResponse {
                applicant_id,
                routing_table_row,
                leaves,
                hop_count,
            } => seq![TAG_JOIN_RESPONSE] + applicant_id@ + wire_slots(routing_table_row@)
                + wire_peer_list(leaves) + seq![hop_count],
            PacketView::Ping { nonce } => seq![TAG_PING] + wire_u64(nonce),
            PacketView::Pong { nonce } => seq![TAG_PONG] + wire_u64(nonce),
            PacketView::Message { key, payload } => seq![TAG_MESSAGE] + key@ + wire_payload(
                payload,
            ),
        }
    }
}

/// Reads the fields of a `PeerIsJoining`.
pub open spec fn parse_peer_is_joining(s: Seq<u8>) -> Option<(PacketView, Seq<u8>)> {
    match parse_peer(s) {
        Some((applicant, after)) => match parse_u8(after) {
            Some((hop_count, rest)) => Some(
                (PacketView::PeerIsJoining { applicant, hop_count }, rest),
            ),
            None => None,
        },
        None => None,
    }
}

/// Reads the fields of a `JoinResponse`.
pub open spec fn parse_join_response(s: Seq<u8>) -> Option<(PacketView, Seq<u8>)> {
    match parse_id(s) {
        Some((applicant_id, after_id)) => match parse_slots(after_id, 16) {
            Some((slots, after_row)) => match parse_peer_list(after_row) {
                Some((leaves, after_leaves)) => match parse_u8(after_leaves) {
                    Some((hop_count, rest)) => Some(
                        (
                            PacketView::JoinResponse {
                                applicant_id,
                                routing_table_row: RoutingTableRow::from_slots(slots),
                                leaves,
                                hop_count,
                            },
                            rest,
                        ),
                    ),
                    None => None,
                },
                None => None,
            },
            None => None,
        },
        None => None,
    }
}

/// Reads the fields of a `Message`.
pub open spec fn parse_message(s: Seq<u8>) -> Option<(PacketView, Seq<u8>)> {
    match parse_id(s) {
        Some((key, after)) => match parse_payload(after) {
            Some((payload, rest)) => Some((PacketView::Message { key, payload }, rest)),
            None => None,
        },
        None => None,
    }
}

/// Reads the fields of the packet whose tag is `tag`.
pub open spec fn parse_fields(tag: u8, s: Seq<u8>) -> Option<(PacketView, Seq<u8>)> {
    if tag == TAG_JOIN_REQUEST {
        Some((PacketView::JoinRequest, s))
    } else if tag == TAG_PEER_IS_JOINING {
        parse_peer_is_joining(s)
    } else if tag == TAG_JOIN_RESPONSE {
        parse_join_response(s)
    } else if tag == TAG_PING {
        match parse_u64(s) {
            Some((nonce, rest)) => Some((PacketView::Ping { nonce }, rest)),
            None => None,
        }
    } else if tag == TAG_PONG {
        match parse_u64(s) {
            Some((nonce, rest)) => Some((PacketView::Pong { nonce }, rest)),
            None => None,
        }
    } else if tag == TAG_MESSAGE {
        parse_message(s)
    } else {
        None
    }
}

/// The packet that the octets of a datagram stand for: they must hold a tag
/// and the fields of that kind of packet, and nothing after them.
pub open spec fn parse_packet(s: Seq<u8>) -> Option<PacketView> {
    match parse_u8(s) {
        Some((tag, fields)) => match parse_fields(tag, fields) {
            Some((packet, rest)) => if rest.len() == 0 {
                Some(packet)
            } else {
                None
            },
            None => None,
        },
        None => None,
    }
}

/// Every packet that is written to the wire is read back from it unchanged.
pub proof fn lemma_packet_round_trip(packet: PacketView)
    requires
        packet.fits(),
    ensures
        parse_packet(packet.wire()) == Some(packet),
{
    let s = packet.wire();
    let none = Seq::<u8>::empty();
    match packet {
        PacketView::JoinRequest => {
            assert(s.skip(1) =~= none);
        },
        PacketView::PeerIsJoining { applicant, hop_count } => {
            let after = seq![hop_count];
            assert(s.skip(1) =~= wire_peer(applicant) + after);
            lemma_parse_peer(applicant, after);
            assert(after.skip(1) =~= none);
        },
        PacketView::JoinResponse { applicant_id, routing_table_row, leaves, hop_count } => {
            let after_leaves = seq![hop_count];
            let after_row = wire_peer_list(leaves) + after_leaves;
            let after_id = wire_slots(routing_table_row@) + after_row;
            assert(s.skip(1) =~= applicant_id@ + after_id);
            lemma_parse_id(applicant_id, after_id);
            routing_table_row.lemma_len();
            lemma_parse_slots(routing_table_row@, after_row);
            routing_table_row.lemma_from_own_slots();
            lemma_parse_peer_list(leaves, after_leaves);
            assert(after_leaves.skip(1) =~= none);
        },
        PacketView::Ping { nonce } => {
            assert(s.skip(1) =~= wire_u64(nonce) + none);
            lemma_parse_u64(nonce, none);
        },
        PacketView::Pong { nonce } => {
            assert(s.skip(1) =~= wire_u64(nonce) + none);
            lemma_parse_u64(nonce, none);
        },
        PacketView::Message { key, payload } => {
            let after = wire_payload(payload) + none;
            assert(s.skip(1) =~= key@ + after);
            lemma_parse_id(key, after);
            lemma_parse_payload(payload, none);
        },
    }
}

/// Octets stand for at most one packet, and only for the packet that is
/// written as exactly these octets.
pub proof fn lemma_packet_canonical(s: Seq<u8>)
    requires
        parse_packet(s) is Some,
    ensures
        parse_packet(s).unwrap().wire() == s,
        parse_packet(s).unwrap().fits(),
{
    let (tag, fields) = parse_u8(s).unwrap();
    let (packet, rest) = parse_fields(tag, fields).unwrap();
    assert(s =~= seq![tag] + fields);
    assert(rest =~= Seq::<u8>::empty());
    if tag == TAG_JOIN_REQUEST {
        assert(fields =~= rest);
    } else if tag == TAG_PEER_IS_JOINING {
        let (applicant, after) = parse_peer(fields).unwrap();
        lemma_wire_peer(fields);
        assert(after =~= seq![after[0]] + rest);
        assert(s =~= packet.wire());
    } else if tag == TAG_JOIN_RESPONSE {
        let (applicant_id, after_id) = parse_id(fields).unwrap();
        let (slots, after_row) = parse_slots(after_id, 16).unwrap();
        let (leaves, after_leaves) = parse_peer_list(after_row).unwrap();
        lemma_wire_id(fields);
        lemma_wire_slots(after_id, 16);
        RoutingTableRow::lemma_from_slots(slots);
        lemma_wire_peer_list(after_row);
        assert(after_leaves =~= seq![after_leaves[0]] + rest);
        assert(s =~= packet.wire());
    } else if tag == TAG_PING || tag == TAG_PONG {
        lemma_wire_u64(fields);
        assert(s =~= packet.wire());
    } else {
        let (key, after) = parse_id(fields).unwrap();
        lemma_wire_id(fields);
        lemma_wire_payload(after);
        assert(s =~= packet.wire());
    }
}

impl Packet {
    /// The octets of the packet on the wire.
    pub fn serialize(&self) -> (r: Result<Vec<u8>, NetworkError>)
        ensures
            match r {
                Ok(octets) => octets@ == self@.wire() && parse_packet(octets@) == Some(self@),
                Err(_) => false,
            },
    {
        let mut out: Vec<u8> = Vec::new();
        match self {
            Packet::JoinRequest => {
                out.push(TAG_JOIN_REQUEST);
            },
            Packet::PeerIsJoining { applicant, hop_count } => {
                out.push(TAG_PEER_IS_JOINING);
                write_peer(applicant, &mut out);
                out.push(*hop_count);
            },
            Packet::JoinResponse { applicant_id, routing_table_row, leaves, hop_count } => {
                out.push(TAG_JOIN_RESPONSE);
                write_id(applicant_id, &mut out);
                write_row(routing_table_row, &mut out);
                write_peer_list(leaves, &mut out);
                out.push(*hop_count);
                assert(leaves@.len() == leaves.len());
            },
            Packet::Ping { nonce } => {
                out.push(TAG_PING);
                write_u64(*nonce, &mut out);
            },
            Packet::Pong { nonce } => {
                out.push(TAG_PONG);
                write_u64(*nonce, &mut out);
            },
            Packet::Message { key, payload } => {
                out.push(TAG_MESSAGE);
                write_id(key, &mut out);
                write_payload(payload, &mut out);
                assert(payload@.len() == payload.len());
            },
        }
        assert(out@ =~= self@.wire());
        proof {
            lemma_packet_round_trip(self@);
        }
        Ok(out)
    }

    /// The packet that the octets of a datagram stand for.
    pub fn deserialize(data: &[u8]) -> (r: Result<Self, NetworkError>)
        ensures
            match r {
                Ok(packet) => parse_packet(data@) == Some(packet@) && packet@.wire() == data@,
                Err(e) => e == NetworkError::Decode && parse_packet(data@) is None,
            },
    {
        proof {
            assert(data@.skip(0) =~= data@);
            if parse_packet(data@) is Some {
                lemma_packet_canonical(data@);
            }
        }
        let (tag, at) = match read_u8(data, 0) {
            Some(read) => read,
            None => {
                return Err(NetworkError::Decode);
            },
        };
        let read: Option<(Packet, usize)> = if tag == TAG_JOIN_REQUEST {
            Some((Packet::JoinRequest, at))
        } else if tag == TAG_PEER_IS_JOINING {
            match read_peer(data, at) {
                Some((applicant, after)) => match read_u8(data, after) {
                    Some((hop_count, end)) => Some(
                        (Packet::PeerIsJoining { applicant, hop_count }, end),
                    ),
                    None => None,
                },
                None => None,
            }
        } else if tag == TAG_JOIN_RESPONSE {
            match read_id(data, at) {
                Some((applicant_id, after_id)) => match read_row(data, after_id) {
                    Some((routing_table_row, after_row)) => match read_peer_list(
                        data,
                        after_row,
                    ) {
                        Some((leaves, after_leaves)) => match read_u8(data, after_leaves) {
                            Some((hop_count, end)) => {
                                proof {
                                    routing_table_row.lemma_from_own_slots();
                                }
                                Some(
                                    (
                                        Packet::JoinResponse {
                                            applicant_id,
                                            routing_table_row,
                                            leaves,
                                            hop_count,
                                        },
                                        end,
                                    ),
                                )
                            },
                            None => None,
                        },
                        None => None,
                    },
                    None => None,
                },
                None => None,
            }
        } else if tag == TAG_PING {
            match read_u64(data, at) {
                Some((nonce, end)) => Some((Packet::Ping { nonce }, end)),
                None => None,
            }
        } else if tag == TAG_PONG {
            match read_u64(data, at) {
                Some((nonce, end)) => Some((Packet::Pong { nonce }, end)),
                None => None,
            }
        } else if tag == TAG_MESSAGE {
            match read_id(data, at) {
                Some((key, after)) => match read_payload(data, after) {
                    Some((payload, end)) => Some((Packet::Message { key, payload }, end)),
                    None => None,
                },
                None => None,
            }
        } else {
            None
        };
        assert(match read {
            Some((packet, end)) => at <= end <= data@.len() && parse_fields(
                tag,
                data@.skip(at as int),
            ) == Some((packet@, data@.skip(end as int))),
            None => parse_fields(tag, data@.skip(at as int)) is None,
        });
        match read {
            Some((packet, end)) => {
                if end == data.len() {
                    Ok(packet)
                } else {
                    Err(NetworkError::Decode)
                }
            },
            None => Err(NetworkError::Decode),
        }
    }
}

} // verus!
