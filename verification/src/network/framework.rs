//! The protocol engine: what a node does when a packet arrives.

use crate::id::Id;
use crate::network::addr::Addr;
use crate::network::error::NetworkError;
use crate::network::packet::{Packet, PacketView};
use crate::network::peer::Peer;
use crate::network::routing::routing_table::{present_peers, RoutingTable, RoutingTableView};
use crate::network::routing::routing_table_row::RoutingTableRow;
use crate::network::Network;
use vstd::prelude::*;

verus! {

/// What the node has to do after it has handled a packet.
#[derive(Debug, Clone, PartialEq, Eq, Hash)]
pub enum Action {
    /// Send `packet` to the node at `to`.
    Send { packet: Packet, to: Addr },
    /// Hand `payload` to the application of this node: the node is the
    /// closest one known to `key`.
    Deliver { key: Id, payload: Vec<u8> },
}

/// An action as contracts see it.
pub enum ActionView {
    Send { packet: PacketView, to: Addr },
    Deliver { key: Id, payload: Seq<u8> },
}

impl View for Action {
    type V = ActionView;

    open spec fn view(&self) -> ActionView {
        match *self {
            Action::Send { packet, to } => ActionView::Send { packet: packet@, to },
            Action::Deliver { key, payload } => ActionView::Deliver { key, payload: payload@ },
        }
    }
}

/// The actions of a list, as contracts see them.
pub open spec fn action_views(actions: Seq<Action>) -> Seq<ActionView> {
    Seq::new(actions.len(), |i: int| actions[i]@)
}

/// The answer that a node with the routing table `table` gives to an
/// applicant at hop `hop_count` of its join: the row of that number and the
/// leaves that are present.
pub open spec fn join_response(table: RoutingTableView, applicant_id: Id, hop_count: u8)
    -> PacketView {
    PacketView::JoinResponse {
        applicant_id,
        routing_table_row: RoutingTableRow::from_slots(table.row_or_empty(hop_count as int)),
        leaves: present_peers(table.leaves),
        hop_count,
    }
}

/// What a node with the routing table `table` has to do when `packet`
/// arrives from `addr`, or why the packet is dropped.
pub open spec fn reaction(table: Option<RoutingTableView>, packet: PacketView, addr: Addr)
    -> Result<Seq<ActionView>, NetworkError> {
    match packet {
        PacketView::JoinRequest => match table {
            Some(t) => {
                let sender = Peer::at(addr);
                match t.route(sender.id) {
                    Some(next_hop) => Ok(
                        seq![
                            ActionView::Send {
                                packet: PacketView::PeerIsJoining {
                                    applicant: sender,
                                    hop_count: 0,
                                },
                                to: next_hop.addr,
                            },
                        ],
                    ),
                    None => Ok(
                        seq![
                            ActionView::Send { packet: join_response(t, sender.id, 0), to: addr },
                        ],
                    ),
                }
            },
            None => Err(NetworkError::TableNotInitialised),
        },
        PacketView::PeerIsJoining { applicant, hop_count } => match table {
            Some(t) => match t.route(applicant.id) {
                Some(next_hop) => if hop_count == u8::MAX {
                    Err(NetworkError::HopCountOverflow)
                } else {
                    Ok(
                        seq![
                            ActionView::Send {
                                packet: PacketView::PeerIsJoining {
                                    applicant,
                                    hop_count: (hop_count + 1) as u8,
                                },
                                to: next_hop.addr,
                            },
                            ActionView::Send {
                                packet: join_response(t, applicant.id, hop_count),
                                to: applicant.addr,
                            },
                        ],
                    )
                },
                None => Ok(
                    seq![
                        ActionView::Send {
                            packet: join_response(t, applicant.id, hop_count),
                            to: applicant.addr,
                        },
                    ],
                ),
            },
            None => Err(NetworkError::TableNotInitialised),
        },
        PacketView::JoinResponse { .. } => Ok(Seq::empty()),
        PacketView::Ping { nonce } => Ok(
            seq![ActionView::Send { packet: PacketView::Pong { nonce }, to: addr }],
        ),
        PacketView::Pong { .. } => Ok(Seq::empty()),
        PacketView::Message { key, payload } => match table {
            Some(t) => match t.route(key) {
                Some(next_hop) => Ok(
                    seq![
                        ActionView::Send {
                            packet: PacketView::Message { key, payload },
                            to: next_hop.addr,
                        },
                    ],
                ),
                None => Ok(seq![ActionView::Deliver { key, payload }]),
            },
            None => Err(NetworkError::TableNotInitialised),
        },
    }
}

/// The routing table of a node after `packet` has arrived: only a
/// `JoinResponse` changes it. It installs its row at the number of its hop
/// and offers its leaves, in a new table under the applicant's identifier
/// where the node had none.
pub open spec fn table_after(table: Option<RoutingTableView>, packet: PacketView) -> Option<
    RoutingTableView,
> {
    match packet {
        PacketView::JoinResponse { applicant_id, routing_table_row, leaves, hop_count } => {
            let base = match table {
                Some(t) => t,
                None => RoutingTableView::empty(applicant_id),
            };
            Some(base.install_row(routing_table_row@, hop_count as int).offer_leaves(leaves))
        },
        _ => table,
    }
}

/// A node of the overlay: its endpoint and whether it is running.
#[derive(Debug)]
pub struct Framework {
    network: Network,
    running: bool,
}

/// The state of a node as contracts see it.
pub struct FrameworkView {
    /// The routing table of the node, where it has one.
    pub table: Option<RoutingTableView>,
    /// Whether the node is running.
    pub running: bool,
}

impl View for Framework {
    type V = FrameworkView;

    closed spec fn view(&self) -> FrameworkView {
        FrameworkView { table: self.network@, running: self.running }
    }
}

impl Framework {
    /// A node around `network` that is not running.
    pub fn new(network: Network) -> (r: Self)
        ensures
            r@.table == network@,
            !r@.running,
    {
        Self { network, running: false }
    }

    /// The endpoint of the node.
    pub fn network(&self) -> (r: &Network)
        ensures
            r@ == self@.table,
    {
        &self.network
    }

    /// Makes this node the first of an overlay: it gets an empty routing
    /// table under the identifier of its public address.
    pub fn bootstrap(&mut self, public_addr: Addr) -> (r: Result<(), NetworkError>)
        ensures
            r is Ok,
            final(self)@.running == old(self)@.running,
            final(self)@.table == Some(RoutingTableView::empty(Peer::at(public_addr).id)),
    {
        self.network.bootstrap(public_addr)
    }

    /// Whether the node is running.
    pub fn is_running(&self) -> (r: bool)
        ensures
            r == self@.running,
    {
        self.running
    }

    /// Starts the node. A node that is running cannot be started.
    pub fn start(&mut self) -> (r: Result<(), NetworkError>)
        ensures
            final(self)@.table == old(self)@.table,
            final(self)@.running,
            match r {
                Ok(_) => !old(self)@.running,
                Err(e) => e == NetworkError::Lifecycle && old(self)@.running,
            },
    {
        if self.running {
            Err(NetworkError::Lifecycle)
        } else {
            self.running = true;
            Ok(())
        }
    }

    /// Stops the node. A node that is not running cannot be stopped.
    pub fn stop(&mut self) -> (r: Result<(), NetworkError>)
        ensures
            final(self)@.table == old(self)@.table,
            !final(self)@.running,
            match r {
                Ok(_) => old(self)@.running,
                Err(e) => e == NetworkError::Lifecycle && !old(self)@.running,
            },
    {
        if self.running {
            self.running = false;
            Ok(())
        } else {
            Err(NetworkError::Lifecycle)
        }
    }

    /// The answer to an applicant at hop `hop_count` of its join.
    fn answer(table: &RoutingTable, applicant_id: Id, hop_count: u8) -> (r: Packet)
        ensures
            r@ == join_response(table@, applicant_id, hop_count),
    {
        let routing_table_row = table.row(hop_count as usize);
        let leaves = table.leaves_to_vec();
        proof {
            routing_table_row.lemma_from_own_slots();
        }
        Packet::JoinResponse { applicant_id, routing_table_row, leaves, hop_count }
    }

    /// Handles a packet that arrived from `addr`: the routing table takes in
    /// what a `JoinResponse` brings, and the result says what is to be sent
    /// and delivered. A packet that needs a routing table before there is
    /// one, or a join whose hop count is at its limit, is dropped with an
    /// error.
    pub fn handle_packet(&mut self, packet: Packet, addr: Addr) -> (r: Result<
        Vec<Action>,
        NetworkError,
    >)
        ensures
            final(self)@.running == old(self)@.running,
            final(self)@.table == table_after(old(self)@.table, packet@),
            match r {
                Ok(actions) => reaction(old(self)@.table, packet@, addr) == Ok::<
                    Seq<ActionView>,
                    NetworkError,
                >(action_views(actions@)),
                Err(e) => reaction(old(self)@.table, packet@, addr) == Err::<
                    Seq<ActionView>,
                    NetworkError,
                >(e),
            },
    {
        let mut actions: Vec<Action> = Vec::new();
        match packet {
            Packet::JoinRequest => {
                let peer = Peer::new(addr);
                let table = match self.network.get_routing_table() {
                    Some(table) => table,
                    None => {
                        return Err(NetworkError::TableNotInitialised);
                    },
                };
                match table.route(&peer.id) {
                    Some(next_hop) => {
                        let packet = Packet::PeerIsJoining { applicant: peer, hop_count: 0 };
                        actions.push(Action::Send { packet, to: next_hop.addr });
                    },
                    None => {
                        let packet = Self::answer(table, peer.id, 0);
                        actions.push(Action::Send { packet, to: addr });
                    },
                }
            },
            Packet::PeerIsJoining { applicant, hop_count } => {
                let table = match self.network.get_routing_table() {
                    Some(table) => table,
                    None => {
                        return Err(NetworkError::TableNotInitialised);
                    },
                };
                match table.route(&applicant.id) {
                    Some(next_hop) => {
                        let next_hop_count: u8 = match hop_count.checked_add(1) {
                            Some(count) => count,
                            None => {
                                return Err(NetworkError::HopCountOverflow);
                            },
                        };
                        let packet = Packet::PeerIsJoining {
                            applicant,
                            hop_count: next_hop_count,
                        };
                        actions.push(Action::Send { packet, to: next_hop.addr });
                        let packet = Self::answer(table, applicant.id, hop_count);
                        actions.push(Action::Send { packet, to: applicant.addr });
                    },
                    None => {
                        let packet = Self::answer(table, applicant.id, hop_count);
                        actions.push(Action::Send { packet, to: applicant.addr });
                    },
                }
            },
            Packet::JoinResponse { applicant_id, routing_table_row, leaves, hop_count } => {
                let mut routing_table = match self.network.get_routing_table() {
                    Some(table) => *table,
                    None => RoutingTable::empty(applicant_id),
                };
                routing_table.set_row(routing_table_row, hop_count as usize);
                routing_table.add_leaves(leaves);
                self.network.set_routing_table(routing_table);
            },
            Packet::Ping { nonce } => {
                let packet = Packet::Pong { nonce };
                actions.push(Action::Send { packet, to: addr });
            },
            Packet::Pong { nonce: _ } => {},
            Packet::Message { key, payload } => {
                let table = match self.network.get_routing_table() {
                    Some(table) => table,
                    None => {
                        return Err(NetworkError::TableNotInitialised);
                    },
                };
                match table.route(&key) {
                    Some(next_hop) => {
                        let to = next_hop.addr;
                        let packet = Packet::Message { key, payload };
                        actions.push(Action::Send { packet, to });
                    },
                    None => {
                        actions.push(Action::Deliver { key, payload });
                    },
                }
            },
        }
        proof {
            assert(reaction(old(self)@.table, packet@, addr) == Ok::<Seq<ActionView>, NetworkError>(
                action_views(actions@),
            )) by {
                let expected = reaction(old(self)@.table, packet@, addr);
                assert(expected is Ok);
                assert(expected->Ok_0 =~= action_views(actions@));
            }
        }
        Ok(actions)
    }
}

} // verus!
