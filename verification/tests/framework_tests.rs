use pastry::id::Id;
use pastry::network::addr::{Addr, Ip};
use pastry::network::error::NetworkError;
use pastry::network::framework::{Action, Framework};
use pastry::network::packet::Packet;
use pastry::network::peer::Peer;
use pastry::network::routing::routing_table::RoutingTable;
use pastry::network::routing::routing_table_row::RoutingTableRow;
use pastry::network::Network;

fn v4(last: u8) -> Addr {
    Addr::new(Ip::V4([10, 0, 0, last]), 4848)
}

fn node_with(table: RoutingTable) -> Framework {
    let mut network = Network::new();
    network.set_routing_table(table);
    Framework::new(network)
}

fn table_of(node: &Framework) -> RoutingTable {
    *node.network().get_routing_table().unwrap()
}

/// The identifier that has the first `shared` digits of `id` and another digit
/// after them.
fn branch_off(id: Id, shared: usize) -> Id {
    let mut octets = id.octets();
    octets[shared / 2] ^= if shared % 2 == 0 { 0x01 } else { 0x10 };
    Id::new(octets)
}

#[test]
fn peer_id_is_the_hash_of_its_address() {
    assert_eq!(Peer::new(v4(1)).id(), Id::from_key(v4(1)));
    assert_eq!(Peer::new(v4(1)), Peer::new(v4(1)));
    assert_ne!(Peer::new(v4(1)).id(), Peer::new(v4(2)).id());
    assert_eq!(Peer::new(v4(1)).addr(), v4(1));
    assert_eq!(Peer::new(v4(1)).info.physical_distance_index, None);
    let raw = Peer::raw(Id::from_value(5), v4(3));
    assert_eq!((raw.id(), raw.addr(), raw.info.physical_distance_index), (Id::from_value(5), v4(3), None));
    assert_eq!(raw.distance(&Id::from_value(7)), Id::from_value(u64::MAX - 1));
}

#[test]
fn start_and_stop() {
    let mut node = Framework::new(Network::new());
    assert!(!node.is_running());
    assert_eq!(node.stop(), Err(NetworkError::Lifecycle));
    assert_eq!(node.start(), Ok(()));
    assert!(node.is_running());
    assert_eq!(node.start(), Err(NetworkError::Lifecycle));
    assert!(node.is_running());
    assert_eq!(node.stop(), Ok(()));
    assert!(!node.is_running());
    assert_eq!(node.stop(), Err(NetworkError::Lifecycle));
}

#[test]
fn bootstrap_makes_an_empty_table() {
    let mut network = Network::new();
    assert!(network.get_routing_table().is_none());
    assert_eq!(network.route(&Id::zero()), Err(NetworkError::TableNotInitialised));
    assert_eq!(network.bootstrap(v4(1)), Ok(()));
    assert_eq!(network.get_routing_table(), Some(&RoutingTable::empty(Peer::new(v4(1)).id())));
    assert_eq!(network.route(&Id::from_key("anything")), Ok(None));
}

#[test]
fn ping_is_answered_with_pong() {
    let mut node = Framework::new(Network::new());
    assert_eq!(
        node.handle_packet(Packet::Ping { nonce: 42 }, v4(9)),
        Ok(vec![Action::Send { packet: Packet::Pong { nonce: 42 }, to: v4(9) }])
    );
    assert!(node.network().get_routing_table().is_none());
}

#[test]
fn pong_is_taken_in_silence() {
    let mut node = Framework::new(Network::new());
    assert_eq!(node.handle_packet(Packet::Pong { nonce: 42 }, v4(9)), Ok(vec![]));
    assert!(node.network().get_routing_table().is_none());
}

#[test]
fn routing_without_a_table_fails() {
    let mut node = Framework::new(Network::new());
    let failed = Err(NetworkError::TableNotInitialised);
    assert_eq!(node.handle_packet(Packet::JoinRequest, v4(9)), failed);
    let joining = Packet::PeerIsJoining { applicant: Peer::new(v4(8)), hop_count: 0 };
    assert_eq!(node.handle_packet(joining, v4(9)), failed);
    let message = Packet::Message { key: Id::zero(), payload: vec![1] };
    assert_eq!(node.handle_packet(message, v4(9)), failed);
    assert!(node.network().get_routing_table().is_none());
}

#[test]
fn message_is_delivered_or_passed_on() {
    let own = Id::from_str("2000-0000-0000-0000").unwrap();
    let other = Peer::raw(Id::from_str("1000-0000-0000-0000").unwrap(), v4(2));
    let mut table = RoutingTable::empty(own);
    let mut row = RoutingTableRow::empty();
    row.set(1, Some(other));
    table.set_row(row, 0);
    let mut node = node_with(table);

    let far = Id::from_str("1200-0000-0000-0000").unwrap();
    assert_eq!(
        node.handle_packet(Packet::Message { key: far, payload: vec![1, 2] }, v4(9)),
        Ok(vec![
            Action::Send { packet: Packet::Message { key: far, payload: vec![1, 2] }, to: v4(2) },
        ])
    );
    assert_eq!(
        node.handle_packet(Packet::Message { key: own, payload: vec![3] }, v4(9)),
        Ok(vec![Action::Deliver { key: own, payload: vec![3] }])
    );
    assert_eq!(table_of(&node), table);
}

#[test]
fn join_request_is_answered_by_the_closest_node() {
    let mut network = Network::new();
    network.bootstrap(v4(1)).unwrap();
    let mut node = Framework::new(network);
    let applicant = Peer::new(v4(7));
    assert_eq!(
        node.handle_packet(Packet::JoinRequest, v4(7)),
        Ok(vec![
            Action::Send {
                packet: Packet::JoinResponse {
                    applicant_id: applicant.id(),
                    routing_table_row: RoutingTableRow::empty(),
                    leaves: vec![],
                    hop_count: 0,
                },
                to: v4(7),
            },
        ])
    );
}

#[test]
fn join_request_is_passed_on_to_the_next_hop() {
    let applicant = Peer::new(v4(7));
    let entry_id = branch_off(applicant.id(), 0);
    let next = Peer::raw(branch_off(applicant.id(), 1), v4(2));
    let mut table = RoutingTable::empty(entry_id);
    let mut row = RoutingTableRow::empty();
    row.set(applicant.id().get_digit(0), Some(next));
    table.set_row(row, 0);
    let mut node = node_with(table);
    assert_eq!(
        node.handle_packet(Packet::JoinRequest, v4(7)),
        Ok(vec![
            Action::Send { packet: Packet::PeerIsJoining { applicant, hop_count: 0 }, to: v4(2) },
        ])
    );
}

#[test]
fn peer_is_joining_is_passed_on_and_answered() {
    let applicant = Peer::new(v4(7));
    let own = branch_off(applicant.id(), 1);
    let next = Peer::raw(branch_off(applicant.id(), 2), v4(3));
    let leaf = Peer::raw(branch_off(own, 15), v4(4));
    let mut table = RoutingTable::empty(own);
    let mut row = RoutingTableRow::empty();
    row.set(applicant.id().get_digit(1), Some(next));
    table.set_row(row, 1);
    table.add_leaves(vec![leaf]);
    let mut node = node_with(table);
    assert_eq!(
        node.handle_packet(Packet::PeerIsJoining { applicant, hop_count: 1 }, v4(1)),
        Ok(vec![
            Action::Send { packet: Packet::PeerIsJoining { applicant, hop_count: 2 }, to: v4(3) },
            Action::Send {
                packet: Packet::JoinResponse {
                    applicant_id: applicant.id(),
                    routing_table_row: table.row(1),
                    leaves: vec![leaf],
                    hop_count: 1,
                },
                to: v4(7),
            },
        ])
    );
    assert_eq!(table_of(&node), table);
}

#[test]
fn hop_count_does_not_wrap() {
    let applicant = Peer::new(v4(7));
    let own = branch_off(applicant.id(), 0);
    let next = Peer::raw(branch_off(applicant.id(), 1), v4(3));
    let mut table = RoutingTable::empty(own);
    let mut row = RoutingTableRow::empty();
    row.set(applicant.id().get_digit(0), Some(next));
    table.set_row(row, 0);
    let mut node = node_with(table);
    assert_eq!(
        node.handle_packet(Packet::PeerIsJoining { applicant, hop_count: 255 }, v4(1)),
        Err(NetworkError::HopCountOverflow)
    );
    assert_eq!(
        node.handle_packet(Packet::PeerIsJoining { applicant, hop_count: 254 }, v4(1))
            .unwrap()
            .len(),
        2
    );
}

#[test]
fn the_last_hop_answers_at_any_hop_count() {
    let applicant = Peer::new(v4(7));
    let mut network = Network::new();
    network.bootstrap(v4(1)).unwrap();
    let mut node = Framework::new(network);
    assert_eq!(
        node.handle_packet(Packet::PeerIsJoining { applicant, hop_count: 255 }, v4(2)),
        Ok(vec![
            Action::Send {
                packet: Packet::JoinResponse {
                    applicant_id: applicant.id(),
                    routing_table_row: RoutingTableRow::empty(),
                    leaves: vec![],
                    hop_count: 255,
                },
                to: v4(7),
            },
        ])
    );
}

#[test]
fn join_response_makes_and_fills_the_table() {
    let own = Id::from_str("2000-0000-0000-0000").unwrap();
    let below = Peer::raw(Id::from_str("1000-0000-0000-0000").unwrap(), v4(2));
    let above = Peer::raw(Id::from_str("3000-0000-0000-0000").unwrap(), v4(3));
    let mut row = RoutingTableRow::empty();
    row.set(1, Some(below));
    row.set(0, Some(above));
    let mut node = Framework::new(Network::new());

    let first = Packet::JoinResponse {
        applicant_id: own,
        routing_table_row: row,
        leaves: vec![above, below],
        hop_count: 1,
    };
    assert_eq!(node.handle_packet(first, v4(9)), Ok(vec![]));
    let mut expected = RoutingTable::empty(own);
    expected.set_row(row, 1);
    expected.add_leaves(vec![above, below]);
    assert_eq!(table_of(&node), expected);
    assert_eq!(*table_of(&node).row(1).get(0), None);
    assert_eq!(table_of(&node).leaves_to_vec(), vec![below, above]);

    let second = Packet::JoinResponse {
        applicant_id: Id::from_key("someone else"),
        routing_table_row: RoutingTableRow::empty(),
        leaves: vec![below],
        hop_count: 1,
    };
    assert_eq!(node.handle_packet(second, v4(9)), Ok(vec![]));
    assert_eq!(table_of(&node).node_id(), own);
    assert_eq!(table_of(&node).row(1), RoutingTableRow::empty());
    assert_eq!(table_of(&node).leaves_to_vec(), vec![below, below, above]);

    let out_of_range = Packet::JoinResponse {
        applicant_id: own,
        routing_table_row: row,
        leaves: vec![],
        hop_count: 8,
    };
    let before = table_of(&node);
    assert_eq!(node.handle_packet(out_of_range, v4(9)), Ok(vec![]));
    assert_eq!(table_of(&node), before);
}

/// Hands the datagrams of `actions` on to the nodes they are for, until no
/// node has anything left to send; gives what was sent to each node.
fn deliver_all(nodes: &mut [(Addr, Framework)], from: Addr, actions: Vec<Action>) -> Vec<(Addr, Packet)> {
    let mut log = Vec::new();
    let mut pending: Vec<(Addr, Action)> = actions.into_iter().map(|a| (from, a)).collect();
    while let Some((sender, action)) = pending.pop() {
        if let Action::Send { packet, to } = action {
            let octets = Network::encode(&packet).unwrap();
            let received = Network::decode(&octets).unwrap();
            log.push((to, received.clone()));
            let node = nodes.iter_mut().find(|(addr, _)| *addr == to).unwrap();
            let reaction = node.1.handle_packet(received, sender).unwrap();
            pending.extend(reaction.into_iter().map(|a| (to, a)));
        }
    }
    log
}

#[test]
fn join_over_two_hops() {
    let (a, e, b, c) = (v4(1), v4(2), v4(3), v4(4));
    let applicant = Peer::new(a);
    let digit = |i: usize| applicant.id().get_digit(i);
    let peer_e = Peer::raw(branch_off(applicant.id(), 0), e);
    let peer_b = Peer::raw(branch_off(applicant.id(), 1), b);
    let peer_c = Peer::raw(branch_off(applicant.id(), 2), c);

    let mut table_e = RoutingTable::empty(peer_e.id());
    let mut row = RoutingTableRow::empty();
    row.set(digit(0), Some(peer_b));
    table_e.set_row(row, 0);
    table_e.add_leaves(vec![peer_b]);

    let mut table_b = RoutingTable::empty(peer_b.id());
    let mut row = RoutingTableRow::empty();
    row.set(peer_e.id().get_digit(0), Some(peer_e));
    table_b.set_row(row, 0);
    let mut row = RoutingTableRow::empty();
    row.set(digit(1), Some(peer_c));
    table_b.set_row(row, 1);
    table_b.add_leaves(vec![peer_e, peer_c]);

    let mut table_c = RoutingTable::empty(peer_c.id());
    let mut row = RoutingTableRow::empty();
    row.set(peer_b.id().get_digit(1), Some(peer_b));
    table_c.set_row(row, 1);
    table_c.add_leaves(vec![peer_b]);

    let mut nodes = vec![
        (a, Framework::new(Network::new())),
        (e, node_with(table_e)),
        (b, node_with(table_b)),
        (c, node_with(table_c)),
    ];
    let request = vec![Action::Send { packet: Packet::JoinRequest, to: e }];
    let log = deliver_all(&mut nodes, a, request);

    assert_eq!(log.iter().filter(|(to, _)| *to == e).count(), 1);
    assert!(log.contains(&(b, Packet::PeerIsJoining { applicant, hop_count: 0 })));
    assert!(log.contains(&(c, Packet::PeerIsJoining { applicant, hop_count: 1 })));
    let answers: Vec<&Packet> = log.iter().filter(|(to, _)| *to == a).map(|(_, p)| p).collect();
    assert_eq!(answers.len(), 2);
    assert!(answers.contains(&&Packet::JoinResponse {
        applicant_id: applicant.id(),
        routing_table_row: table_b.row(0),
        leaves: table_b.leaves_to_vec(),
        hop_count: 0,
    }));
    assert!(answers.contains(&&Packet::JoinResponse {
        applicant_id: applicant.id(),
        routing_table_row: table_c.row(1),
        leaves: table_c.leaves_to_vec(),
        hop_count: 1,
    }));

    let joined = table_of(&nodes[0].1);
    assert_eq!(joined.node_id(), applicant.id());
    let mut row_0 = table_b.row(0);
    row_0.set(digit(0), None);
    let mut row_1 = table_c.row(1);
    row_1.set(digit(1), None);
    assert_eq!(joined.row(0), row_0);
    assert_eq!(joined.row(1), row_1);
    assert_eq!(*joined.row(0).get(peer_e.id().get_digit(0)), Some(peer_e));
    assert_eq!(*joined.row(1).get(peer_b.id().get_digit(1)), Some(peer_b));
    for i in 2..8 {
        assert_eq!(joined.row(i), RoutingTableRow::empty());
    }
    let mut leaves = joined.leaves_to_vec();
    leaves.sort_by_key(|leaf| leaf.id());
    let mut expected = vec![peer_b, peer_e, peer_c];
    expected.sort_by_key(|leaf| leaf.id());
    assert_eq!(leaves, expected);
    for leaf in joined.leaves_to_vec() {
        assert_ne!(leaf.id(), applicant.id());
    }

    assert_eq!(table_of(&nodes[1].1), table_e);
    assert_eq!(table_of(&nodes[2].1), table_b);
    assert_eq!(table_of(&nodes[3].1), table_c);
}
