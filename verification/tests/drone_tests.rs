use drone_network::drone::{DroneAction, Forward, MyDrone, OnRefused, OnSent};
use drone_network::packet::{
    Ack, FloodRequest, FloodResponse, Fragment, Nack, NackType, NodeType, Packet, PacketType, SourceRoutingHeader,
};

fn route(hop_index: usize, hops: Vec<u8>) -> SourceRoutingHeader {
    SourceRoutingHeader::new(hops, hop_index)
}

/// A fragment from client 1 through drones 11 and 12 to server 21.
fn sample_fragment() -> Packet {
    Packet::new_fragment(
        route(1, vec![1, 11, 12, 21]),
        1,
        Fragment { fragment_index: 1, total_n_fragments: 1, length: 128, data: [1; 128] },
    )
}

fn single_send(action: DroneAction) -> Forward {
    match action {
        DroneAction::Send(f) => f,
        _ => panic!("expected a single send"),
    }
}

#[test]
fn fragment_is_forwarded_to_next_hop() {
    let mut drone = MyDrone::new(11, vec![12]);
    let msg = sample_fragment();
    assert!(drone.can_handle(&msg, false));
    let f = single_send(drone.handle_packet(&msg, false));
    let mut expected = msg.clone();
    expected.routing_header.hop_index = 2;
    assert_eq!(f.next_hop, 12);
    assert_eq!(f.packet, expected);
    assert_eq!(f.on_sent, OnSent::Sent);
    assert_eq!(f.on_refused, OnRefused::Abort);
}

#[test]
fn dropped_fragment_is_answered_with_dropped_nack() {
    let mut drone = MyDrone::new(11, vec![12, 1]);
    let msg = sample_fragment();
    let f = single_send(drone.handle_packet(&msg, true));
    let nack = Packet::new_nack(
        route(0, vec![1, 11, 12, 21]),
        1,
        Nack { fragment_index: 1, nack_type: NackType::Dropped },
    );
    assert_eq!(f.next_hop, 1);
    assert_eq!(f.packet, nack);
    assert_eq!(f.on_sent, OnSent::Dropped);
}

#[test]
fn chain_of_two_drones_second_drops() {
    let mut d11 = MyDrone::new(11, vec![12, 1]);
    let mut d12 = MyDrone::new(12, vec![11, 21]);
    let msg = sample_fragment();
    let first = single_send(d11.handle_packet(&msg, false));
    assert_eq!(first.next_hop, 12);
    let back = single_send(d12.handle_packet(&first.packet, true));
    assert_eq!(back.next_hop, 11);
    let to_client = single_send(d11.handle_packet(&back.packet, false));
    assert_eq!(to_client.next_hop, 1);
    assert_eq!(
        to_client.packet,
        Packet {
            pack_type: PacketType::Nack(Nack { fragment_index: 1, nack_type: NackType::Dropped }),
            routing_header: route(0, vec![1, 11, 12, 21]),
            session_id: 1,
        }
    );
}

#[test]
fn chain_of_two_drones_delivers_and_acks() {
    let mut d11 = MyDrone::new(11, vec![12, 1]);
    let mut d12 = MyDrone::new(12, vec![11, 21]);
    let msg = sample_fragment();
    let first = single_send(d11.handle_packet(&msg, false));
    let second = single_send(d12.handle_packet(&first.packet, false));
    let mut expected = msg.clone();
    expected.routing_header.hop_index = 3;
    assert_eq!(second.next_hop, 21);
    assert_eq!(second.packet, expected);

    let ack = Packet::new_ack(route(2, vec![1, 11, 12, 21]), 1, 1);
    let a1 = single_send(d12.handle_packet(&ack, false));
    assert_eq!(a1.next_hop, 11);
    let a2 = single_send(d11.handle_packet(&a1.packet, false));
    assert_eq!(a2.next_hop, 1);
    assert_eq!(a2.packet, Packet::new_ack(route(0, vec![1, 11, 12, 21]), 1, 1));
}

#[test]
fn flood_request_is_broadcast_to_all_but_sender() {
    let mut drone = MyDrone::new(11, vec![21, 12, 1]);
    let request = Packet::new_flood_request(
        route(1, vec![1]),
        1,
        FloodRequest { flood_id: 99, initiator_id: 1, path_trace: vec![(1, NodeType::Client)] },
    );
    assert!(drone.can_handle(&request, false));
    match drone.handle_packet(&request, false) {
        DroneAction::Broadcast { targets, packet } => {
            assert_eq!(targets, vec![21, 12]);
            assert_eq!(packet.routing_header.hop_index, 2);
            assert_eq!(packet.routing_header.hops, vec![1, 11]);
            assert_eq!(
                packet.pack_type,
                PacketType::FloodRequest(FloodRequest {
                    flood_id: 99,
                    initiator_id: 1,
                    path_trace: vec![(1, NodeType::Client), (11, NodeType::Drone)],
                })
            );
            assert_eq!(packet.session_id, 1);
        },
        _ => panic!("expected a broadcast"),
    }
}

#[test]
fn error_in_routing_when_next_hop_is_not_a_neighbour() {
    let mut drone = MyDrone::new(21, vec![11, 31]);
    let msg = Packet::new_fragment(
        route(1, vec![11, 21, 31, 32, 41]),
        2,
        Fragment { fragment_index: 1, total_n_fragments: 1, length: 128, data: [1; 128] },
    );
    let forward = single_send(drone.handle_packet(&msg, false));
    assert_eq!(forward.next_hop, 31);
    let mut drone31 = MyDrone::new(31, vec![21, 32]);
    let forward2 = single_send(drone31.handle_packet(&forward.packet, false));
    let mut drone32 = MyDrone::new(32, vec![31]);
    let back = single_send(drone32.handle_packet(&forward2.packet, false));
    assert_eq!(back.next_hop, 31);
    assert_eq!(
        back.packet.pack_type,
        PacketType::Nack(Nack { fragment_index: 1, nack_type: NackType::ErrorInRouting(41) })
    );
    assert_eq!(back.packet.routing_header.hop_index, 2);
    assert_eq!(back.on_refused, OnRefused::Shortcut);
}

#[test]
fn unexpected_recipient_is_reported_back() {
    let mut drone = MyDrone::new(13, vec![11, 12]);
    let msg = sample_fragment();
    let f = single_send(drone.handle_packet(&msg, false));
    assert_eq!(f.next_hop, 1);
    assert_eq!(
        f.packet.pack_type,
        PacketType::Nack(Nack { fragment_index: 1, nack_type: NackType::UnexpectedRecipient(13) })
    );
    assert_eq!(f.packet.routing_header.hop_index, 0);
}

#[test]
fn flood_response_goes_back_along_route() {
    let mut drone = MyDrone::new(11, vec![1, 12]);
    let resp = Packet::new_flood_response(
        route(2, vec![21, 12, 11, 1]),
        5,
        FloodResponse { flood_id: 7, path_trace: vec![(1, NodeType::Client), (11, NodeType::Drone), (21, NodeType::Server)] },
    );
    let f = single_send(drone.handle_packet(&resp, false));
    assert_eq!(f.next_hop, 12);
    assert_eq!(f.packet.routing_header.hop_index, 1);
    assert_eq!(f.on_refused, OnRefused::Shortcut);
}

#[test]
fn crashing_drone_loses_flood_requests_and_nacks_fragments() {
    let mut drone = MyDrone::new(11, vec![1, 12]);
    let request = Packet::new_flood_request(
        route(1, vec![1]),
        1,
        FloodRequest { flood_id: 1, initiator_id: 1, path_trace: vec![(1, NodeType::Client)] },
    );
    assert!(matches!(drone.handle_packet_while_crashing(&request), DroneAction::Nothing));
    let f = single_send(drone.handle_packet_while_crashing(&sample_fragment()));
    assert_eq!(f.next_hop, 1);
    assert_eq!(
        f.packet.pack_type,
        PacketType::Nack(Nack { fragment_index: 1, nack_type: NackType::ErrorInRouting(11) })
    );
    assert_eq!(f.on_sent, OnSent::Silent);
    assert_eq!(f.on_refused, OnRefused::Ignore);
    let ack = Packet::new_ack(route(1, vec![1, 11, 12]), 3, 0);
    let a = single_send(drone.handle_packet_while_crashing(&ack));
    assert_eq!(a.packet.pack_type, PacketType::Ack(Ack { fragment_index: 0 }));
    assert_eq!(a.next_hop, 1);
}

#[test]
fn crash_ends_when_last_sender_is_removed() {
    let mut drone = MyDrone::new(11, vec![1, 12]);
    assert!(!drone.remove_sender_while_crashing(1));
    assert!(drone.remove_sender_while_crashing(12));
    assert!(drone.neighbors().is_empty());
}

#[test]
fn add_and_remove_sender() {
    let mut drone = MyDrone::new(11, vec![1]);
    drone.add_sender(12);
    drone.add_sender(12);
    assert_eq!(drone.neighbors(), &vec![1, 12]);
    drone.remove_sender(1);
    assert_eq!(drone.neighbors(), &vec![12]);
}

#[test]
fn index_out_of_range_is_not_handled() {
    let mut drone = MyDrone::new(11, vec![12]);
    let msg = Packet::new_fragment(
        route(4, vec![1, 11, 12, 21]),
        1,
        Fragment { fragment_index: 0, total_n_fragments: 1, length: 1, data: [0; 128] },
    );
    assert!(!drone.can_handle(&msg, false));
}

#[test]
fn every_single_send_names_its_receiver_as_current_hop() {
    let mut drone = MyDrone::new(11, vec![12, 1]);
    let packets = vec![
        sample_fragment(),
        Packet::new_ack(route(1, vec![21, 11, 1]), 2, 0),
        Packet::new_nack(route(1, vec![1, 11, 12]), 2, Nack { fragment_index: 0, nack_type: NackType::Dropped }),
        Packet::new_fragment(
            route(1, vec![1, 11, 13]),
            3,
            Fragment { fragment_index: 0, total_n_fragments: 1, length: 1, data: [0; 128] },
        ),
    ];
    for p in &packets {
        for dropped in [false, true] {
            if let DroneAction::Send(f) = drone.handle_packet(p, dropped) {
                assert_eq!(f.packet.routing_header.current_hop(), Some(f.next_hop));
            }
        }
        if let DroneAction::Send(f) = drone.handle_packet_while_crashing(p) {
            assert_eq!(f.packet.routing_header.current_hop(), Some(f.next_hop));
        }
    }
}

fn flood_request(hop_index: usize, hops: Vec<u8>, trace: Vec<(u8, NodeType)>) -> Packet {
    Packet::new_flood_request(route(hop_index, hops), 1, FloodRequest { flood_id: 99, initiator_id: 1, path_trace: trace })
}

#[test]
fn a_flood_seen_before_is_answered_not_passed_on() {
    let mut drone = MyDrone::new(12, vec![11, 13, 21]);
    let first = flood_request(2, vec![1, 11, 11], vec![(1, NodeType::Client), (11, NodeType::Drone)]);
    assert!(matches!(drone.handle_packet(&first, false), DroneAction::Broadcast { .. }));
    // the same flood comes back through drone 13
    let again = flood_request(
        3,
        vec![1, 11, 11, 13],
        vec![(1, NodeType::Client), (11, NodeType::Drone), (13, NodeType::Drone)],
    );
    assert!(drone.can_handle(&again, false));
    let f = single_send(drone.handle_packet(&again, false));
    assert_eq!(f.next_hop, 13);
    assert_eq!(
        f.packet.pack_type,
        PacketType::FloodResponse(FloodResponse {
            flood_id: 99,
            path_trace: vec![(1, NodeType::Client), (11, NodeType::Drone), (13, NodeType::Drone)],
        })
    );
    assert_eq!(f.packet.routing_header.hops, vec![1, 11, 13, 12]);
    assert_eq!(f.packet.routing_header.hop_index, 2);
    assert_eq!(f.packet.routing_header.current_hop(), Some(13));
    assert_eq!(f.on_refused, OnRefused::Shortcut);
    // a flood with the same id but another initiator is a new flood
    let other = Packet::new_flood_request(
        route(1, vec![2]),
        1,
        FloodRequest { flood_id: 99, initiator_id: 2, path_trace: vec![(2, NodeType::Client)] },
    );
    assert!(matches!(drone.handle_packet(&other, false), DroneAction::Broadcast { .. }));
}

#[test]
fn broadcast_leaves_out_the_node_the_request_came_from() {
    // third drone on the way: the route entry before the current index is
    // drone 11, but the request came from drone 12
    let mut drone = MyDrone::new(13, vec![11, 12, 14]);
    let request = flood_request(
        3,
        vec![1, 11, 11, 12],
        vec![(1, NodeType::Client), (11, NodeType::Drone), (12, NodeType::Drone)],
    );
    match drone.handle_packet(&request, false) {
        DroneAction::Broadcast { targets, packet } => {
            assert_eq!(targets, vec![11, 14]);
            assert_eq!(packet.routing_header.hop_index, 4);
        },
        _ => panic!("expected a broadcast"),
    }
}

#[test]
fn a_route_that_ends_at_a_drone_is_refused() {
    let mut drone = MyDrone::new(12, vec![11]);
    let msg = Packet::new_fragment(
        route(2, vec![1, 11, 12]),
        4,
        Fragment { fragment_index: 2, total_n_fragments: 3, length: 1, data: [0; 128] },
    );
    assert!(drone.can_handle(&msg, false));
    let f = single_send(drone.handle_packet(&msg, false));
    assert_eq!(f.next_hop, 11);
    assert_eq!(
        f.packet,
        Packet::new_nack(route(1, vec![1, 11, 12]), 4, Nack { fragment_index: 2, nack_type: NackType::DestinationIsDrone })
    );
}
