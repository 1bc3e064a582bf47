use pastry::id::Id;
use pastry::network::addr::{Addr, Ip};
use pastry::network::error::NetworkError;
use pastry::network::packet::Packet;
use pastry::network::peer::Peer;
use pastry::network::peer_info::PeerInfo;
use pastry::network::routing::routing_table_row::RoutingTableRow;
use pastry::network::{Network, MTU};

fn v4(a: u8, b: u8, c: u8, d: u8, port: u16) -> Addr {
    Addr::new(Ip::V4([a, b, c, d]), port)
}

fn v6(last: u8, port: u16) -> Addr {
    let mut octets = [0u8; 16];
    octets[0] = 0xfe;
    octets[1] = 0x80;
    octets[15] = last;
    Addr::new(Ip::V6(octets), port)
}

fn sample_row() -> RoutingTableRow {
    let mut row = RoutingTableRow::empty();
    row.set(0, Some(Peer::raw(Id::from_value(1), v4(10, 0, 0, 1, 1))));
    row.set(7, Some(Peer::raw(Id::from_value(u64::MAX), v6(9, 65535))));
    let mut known = Peer::raw(Id::from_value(77), v4(192, 168, 1, 20, 4848));
    known.info = PeerInfo { physical_distance_index: Some(0x0102_0304_0506_0708) };
    row.set(15, Some(known));
    row
}

fn samples() -> Vec<Packet> {
    vec![
        Packet::JoinRequest,
        Packet::PeerIsJoining { applicant: Peer::new(v4(127, 0, 0, 1, 4848)), hop_count: 0 },
        Packet::PeerIsJoining { applicant: Peer::new(v6(1, 80)), hop_count: 255 },
        Packet::JoinResponse {
            applicant_id: Id::from_key("applicant"),
            routing_table_row: RoutingTableRow::empty(),
            leaves: vec![],
            hop_count: 0,
        },
        Packet::JoinResponse {
            applicant_id: Id::from_key("applicant"),
            routing_table_row: sample_row(),
            leaves: vec![
                Peer::new(v4(1, 2, 3, 4, 5)),
                Peer::new(v6(2, 6)),
                Peer::raw(Id::zero(), v4(0, 0, 0, 0, 0)),
            ],
            hop_count: 3,
        },
        Packet::Ping { nonce: 0 },
        Packet::Ping { nonce: u64::MAX },
        Packet::Pong { nonce: 0x0102_0304_0506_0708 },
        Packet::Message { key: Id::from_key("key"), payload: vec![] },
        Packet::Message { key: Id::from_key("key"), payload: (0..=255).collect() },
    ]
}

#[test]
fn every_packet_is_read_back() {
    for packet in samples() {
        let octets = packet.serialize().unwrap();
        assert_eq!(Packet::deserialize(&octets), Ok(packet));
    }
}

#[test]
fn ping_on_the_wire() {
    let octets = Packet::Ping { nonce: 0x0102_0304_0506_0708 }.serialize().unwrap();
    assert_eq!(octets, vec![3, 8, 7, 6, 5, 4, 3, 2, 1]);
    let octets = Packet::Pong { nonce: 1 }.serialize().unwrap();
    assert_eq!(octets, vec![4, 1, 0, 0, 0, 0, 0, 0, 0]);
}

#[test]
fn join_request_on_the_wire() {
    assert_eq!(Packet::JoinRequest.serialize().unwrap(), vec![0]);
}

#[test]
fn peer_is_joining_on_the_wire() {
    let applicant = Peer::raw(Id::new([1, 2, 3, 4, 5, 6, 7, 8]), v4(127, 0, 0, 1, 0x12f0));
    let octets = Packet::PeerIsJoining { applicant, hop_count: 7 }.serialize().unwrap();
    assert_eq!(
        octets,
        vec![1, 1, 2, 3, 4, 5, 6, 7, 8, 4, 127, 0, 0, 1, 0x12, 0xf0, 0, 7]
    );
}

#[test]
fn message_on_the_wire() {
    let packet = Packet::Message { key: Id::new([9; 8]), payload: vec![0xaa, 0xbb] };
    assert_eq!(
        packet.serialize().unwrap(),
        vec![5, 9, 9, 9, 9, 9, 9, 9, 9, 2, 0, 0, 0, 0, 0, 0, 0, 0xaa, 0xbb]
    );
}

#[test]
fn join_response_on_the_wire() {
    let mut row = RoutingTableRow::empty();
    let mut known = Peer::raw(Id::new([1; 8]), v6(3, 0x0102));
    known.info = PeerInfo { physical_distance_index: Some(5) };
    row.set(1, Some(known));
    let packet = Packet::JoinResponse {
        applicant_id: Id::new([2; 8]),
        routing_table_row: row,
        leaves: vec![Peer::raw(Id::new([3; 8]), v4(1, 2, 3, 4, 5))],
        hop_count: 9,
    };
    let mut expected = vec![2u8];
    expected.extend([2; 8]);
    expected.push(0);
    expected.push(1);
    expected.extend([1; 8]);
    expected.push(6);
    expected.extend([0xfe, 0x80, 0, 0, 0, 0, 0, 0, 0, 0, 0, 0, 0, 0, 0, 3]);
    expected.extend([1, 2]);
    expected.extend([1, 5, 0, 0, 0, 0, 0, 0, 0]);
    expected.extend([0; 14]);
    expected.extend([1, 0, 0, 0, 0, 0, 0, 0]);
    expected.extend([3; 8]);
    expected.extend([4, 1, 2, 3, 4, 0, 5, 0]);
    expected.push(9);
    assert_eq!(packet.serialize().unwrap(), expected);
    assert_eq!(Packet::deserialize(&expected), Ok(packet));
}

#[test]
fn octets_that_are_no_packet_are_refused() {
    assert_eq!(Packet::deserialize(&[]), Err(NetworkError::Decode));
    assert_eq!(Packet::deserialize(&[6]), Err(NetworkError::Decode));
    assert_eq!(Packet::deserialize(&[255]), Err(NetworkError::Decode));
    assert_eq!(Packet::deserialize(&[0, 0]), Err(NetworkError::Decode));
    assert_eq!(Packet::deserialize(&[3, 1, 2, 3]), Err(NetworkError::Decode));
    assert_eq!(Packet::deserialize(&[3, 1, 2, 3, 4, 5, 6, 7, 8, 9]), Err(NetworkError::Decode));
}

#[test]
fn a_packet_cut_short_or_drawn_out_is_refused() {
    for packet in samples() {
        let octets = packet.serialize().unwrap();
        for end in 0..octets.len() {
            assert_eq!(Packet::deserialize(&octets[..end]), Err(NetworkError::Decode));
        }
        let mut longer = octets.clone();
        longer.push(0);
        assert_eq!(Packet::deserialize(&longer), Err(NetworkError::Decode));
    }
}

#[test]
fn bad_marks_and_tags_are_refused() {
    let applicant = Peer::raw(Id::new([1; 8]), v4(127, 0, 0, 1, 80));
    let good = Packet::PeerIsJoining { applicant, hop_count: 7 }.serialize().unwrap();
    assert!(Packet::deserialize(&good).is_ok());
    let mut bad_family = good.clone();
    bad_family[9] = 5;
    assert_eq!(Packet::deserialize(&bad_family), Err(NetworkError::Decode));
    let mut bad_mark = good.clone();
    bad_mark[16] = 2;
    assert_eq!(Packet::deserialize(&bad_mark), Err(NetworkError::Decode));
}

#[test]
fn a_list_that_claims_more_peers_than_it_holds_is_refused() {
    let packet = Packet::JoinResponse {
        applicant_id: Id::zero(),
        routing_table_row: RoutingTableRow::empty(),
        leaves: vec![Peer::raw(Id::zero(), v4(1, 1, 1, 1, 1))],
        hop_count: 0,
    };
    let mut octets = packet.serialize().unwrap();
    let count_at = 1 + 8 + 16;
    assert_eq!(octets[count_at], 1);
    octets[count_at] = 2;
    assert_eq!(Packet::deserialize(&octets), Err(NetworkError::Decode));
    octets[count_at + 7] = 0xff;
    assert_eq!(Packet::deserialize(&octets), Err(NetworkError::Decode));
}

#[test]
fn a_payload_that_claims_more_octets_than_it_holds_is_refused() {
    let packet = Packet::Message { key: Id::zero(), payload: vec![1, 2, 3] };
    let mut octets = packet.serialize().unwrap();
    octets[9] = 4;
    assert_eq!(Packet::deserialize(&octets), Err(NetworkError::Decode));
    octets[16] = 0xff;
    assert_eq!(Packet::deserialize(&octets), Err(NetworkError::Decode));
}

#[test]
fn encode_refuses_what_does_not_fit_into_a_datagram() {
    assert_eq!(MTU, 1500);
    let fits = Packet::Message { key: Id::zero(), payload: vec![0; MTU - 17] };
    let octets = Network::encode(&fits).unwrap();
    assert_eq!(octets.len(), MTU);
    assert_eq!(Network::decode(&octets), Ok(fits));
    let too_long = Packet::Message { key: Id::zero(), payload: vec![0; MTU - 16] };
    assert_eq!(Network::encode(&too_long), Err(NetworkError::Encode));
    assert_eq!(too_long.serialize().unwrap().len(), MTU + 1);
}

#[test]
fn decode_refuses_what_is_no_packet() {
    assert_eq!(Network::decode(&[9, 9, 9]), Err(NetworkError::Decode));
    assert_eq!(Network::decode(&[0]), Ok(Packet::JoinRequest));
}

#[test]
fn address_octets() {
    let mut out = vec![0xee];
    v4(1, 2, 3, 4, 0x0506).write_octets(&mut out);
    assert_eq!(out, vec![0xee, 4, 1, 2, 3, 4, 5, 6]);
    let mut out = Vec::new();
    v6(7, 8).write_octets(&mut out);
    assert_eq!(out, vec![6, 0xfe, 0x80, 0, 0, 0, 0, 0, 0, 0, 0, 0, 0, 0, 0, 0, 7, 0, 8]);
}
