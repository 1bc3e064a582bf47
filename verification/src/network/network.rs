//! The endpoint of a node: its routing table and its datagrams.

use crate::id::Id;
use crate::network::addr::Addr;
use crate::network::error::NetworkError;
use crate::network::packet::{parse_packet, Packet};
use crate::network::peer::Peer;
use crate::network::routing::routing_table::{copied, RoutingTable, RoutingTableView};
use vstd::prelude::*;

verus! {

/// The largest number of octets that one datagram carries.
pub const MTU: usize = 1500;

/// The endpoint of a node: it owns the routing table, once there is one, and
/// turns packets into datagrams and back.
#[derive(Debug)]
pub struct Network {
    routing_table: Option<RoutingTable>,
}

impl View for Network {
    type V = Option<RoutingTableView>;

    /// The routing table of the endpoint, where it has one.
    closed spec fn view(&self) -> Option<RoutingTableView> {
        match self.routing_table {
            Some(table) => Some(table@),
            None => None,
        }
    }
}

/// The routing table behind an optional reference, as contracts see it.
pub open spec fn table_view(table: Option<&RoutingTable>) -> Option<RoutingTableView> {
    match table {
        Some(t) => Some(t@),
        None => None,
    }
}

impl Network {
    /// An endpoint that has no routing table yet.
    pub fn new() -> (r: Self)
        ensures
            r@ is None,
    {
        Self { routing_table: None }
    }

    /// Makes this node the first of an overlay: it gets an empty routing
    /// table under the identifier of its public address.
    pub fn bootstrap(&mut self, public_addr: Addr) -> (r: Result<(), NetworkError>)
        ensures
            r is Ok,
            final(self)@ == Some(RoutingTableView::empty(Peer::at(public_addr).id)),
    {
        let peer = Peer::new(public_addr);
        let routing_table = RoutingTable::empty(peer.id());
        self.set_routing_table(routing_table);
        Ok(())
    }

    /// The octets of the datagram that carries `packet`. A packet that does
    /// not fit into one datagram is refused.
    pub fn encode(packet: &Packet) -> (r: Result<Vec<u8>, NetworkError>)
        ensures
            match r {
                Ok(octets) => octets@ == packet@.wire() && octets@.len() <= MTU && parse_packet(
                    octets@,
                ) == Some(packet@),
                Err(e) => e == NetworkError::Encode && packet@.wire().len() > MTU,
            },
    {
        match packet.serialize() {
            Ok(octets) => {
                if octets.len() <= MTU {
                    Ok(octets)
                } else {
                    Err(NetworkError::Encode)
                }
            },
            Err(_) => Err(NetworkError::Encode),
        }
    }

    /// The packet that the octets of a received datagram stand for.
    pub fn decode(data: &[u8]) -> (r: Result<Packet, NetworkError>)
        ensures
            match r {
                Ok(packet) => parse_packet(data@) == Some(packet@) && packet@.wire() == data@,
                Err(e) => e == NetworkError::Decode && parse_packet(data@) is None,
            },
    {
        Packet::deserialize(data)
    }

    /// The next hop towards `id` by the routing table; `None` where this
    /// node is the closest one known. Fails while there is no routing table.
    pub fn route(&self, id: &Id) -> (r: Result<Option<&Peer>, NetworkError>)
        ensures
            match r {
                Ok(hop) => self@ is Some && copied(hop) == self@.unwrap().route(*id),
                Err(e) => e == NetworkError::TableNotInitialised && self@ is None,
            },
    {
        match &self.routing_table {
            Some(routing_table) => Ok(routing_table.route(id)),
            None => Err(NetworkError::TableNotInitialised),
        }
    }

    /// The routing table, where there is one.
    pub fn get_routing_table(&self) -> (r: Option<&RoutingTable>)
        ensures
            table_view(r) == self@,
            self@ matches Some(table) ==> table.wf(),
    {
        match &self.routing_table {
            Some(table) => {
                table.recall_well_formed();
                Some(table)
            },
            None => None,
        }
    }

    /// Makes `routing_table` the routing table of the endpoint.
    pub fn set_routing_table(&mut self, routing_table: RoutingTable)
        ensures
            final(self)@ == Some(routing_table@),
    {
        self.routing_table = Some(routing_table);
    }
}

} // verus!
