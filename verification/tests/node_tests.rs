use drone_network::client::Client;
use drone_network::communication_server::{ChatOutcome, CommunicationServer};
use drone_network::content_server::ContentServer;
use drone_network::message::{
    ChatMessage, ChatRequest, ChatResponse, ContentType, MediaRequest, MediaResponse, Message, ServerType,
    ServerTypeRequest, ServerTypeResponse, TextRequest, TextResponse,
};
use drone_network::message::{Request, Response};
use drone_network::node::{ack_for_fragment, flood_answer, plan_message, react_to_packet, NodeReaction};
use drone_network::packet::{
    FloodRequest, FloodResponse, Fragment, NodeType, Packet, PacketType, SourceRoutingHeader,
};
use drone_network::topology::Topology;
use std::collections::HashSet;

fn flood_response(trace: Vec<(u8, NodeType)>) -> FloodResponse {
    FloodResponse { flood_id: 1, path_trace: trace }
}

#[test]
fn topology_learns_servers_for_a_client() {
    let mut t = Topology::new();
    t.update_with_flood_response(
        &flood_response(vec![(1, NodeType::Client), (11, NodeType::Drone), (21, NodeType::Server)]),
        true,
    );
    assert_eq!(t.path_to(21), Some(vec![1, 11, 21]));
    // a drone answering is not kept by a client
    t.update_with_flood_response(&flood_response(vec![(1, NodeType::Client), (11, NodeType::Drone)]), true);
    assert_eq!(t.path_to(11), None);
    // a longer path does not replace a shorter one
    t.update_with_flood_response(
        &flood_response(vec![(1, NodeType::Client), (11, NodeType::Drone), (12, NodeType::Drone), (21, NodeType::Server)]),
        true,
    );
    assert_eq!(t.path_to(21), Some(vec![1, 11, 21]));
}

#[test]
fn topology_keeps_the_shorter_path() {
    let mut t = Topology::new();
    t.update_with_flood_response(
        &flood_response(vec![(21, NodeType::Server), (11, NodeType::Drone), (12, NodeType::Drone), (1, NodeType::Client)]),
        false,
    );
    t.update_with_flood_response(
        &flood_response(vec![(21, NodeType::Server), (13, NodeType::Drone), (1, NodeType::Client)]),
        false,
    );
    assert_eq!(t.compute_path_to_node(1), Ok(vec![21, 13, 1]));
    assert_eq!(t.compute_path_to_node(5), Err("Path not found".to_string()));
    t.clear();
    assert_eq!(t.path_to(1), None);
}

#[test]
fn fragments_are_acknowledged_back_along_the_route() {
    let p = Packet::new_fragment(
        SourceRoutingHeader::new(vec![1, 11, 21], 2),
        8,
        Fragment { fragment_index: 3, total_n_fragments: 5, length: 128, data: [0; 128] },
    );
    let ack = ack_for_fragment(&p, 3);
    assert_eq!(ack, Packet::new_ack(SourceRoutingHeader::new(vec![21, 11, 1], 1), 8, 3));
    match react_to_packet(&p, 21, NodeType::Server) {
        NodeReaction::Assemble { ack: a } => assert_eq!(a, ack),
        _ => panic!("expected an assembly"),
    }
}

#[test]
fn flood_requests_are_answered_with_the_completed_trace() {
    let req = FloodRequest { flood_id: 4, initiator_id: 1, path_trace: vec![(1, NodeType::Client), (11, NodeType::Drone)] };
    let answer = flood_answer(&req, 6, 21, NodeType::Server);
    assert_eq!(answer.routing_header.hops, vec![21, 11, 1]);
    assert_eq!(answer.routing_header.hop_index, 1);
    assert_eq!(answer.session_id, 6);
    assert_eq!(
        answer.pack_type,
        PacketType::FloodResponse(FloodResponse {
            flood_id: 4,
            path_trace: vec![(1, NodeType::Client), (11, NodeType::Drone), (21, NodeType::Server)],
        })
    );
}

#[test]
fn message_is_planned_on_the_known_path() {
    let mut t = Topology::new();
    t.update_with_flood_response(
        &flood_response(vec![(1, NodeType::Client), (11, NodeType::Drone), (21, NodeType::Server)]),
        true,
    );
    let packets = plan_message(&t, 21, 10, &vec![1u8; 130]).unwrap();
    assert_eq!(packets.len(), 2);
    assert!(packets.iter().all(|p| p.routing_header.hops == vec![1, 11, 21] && p.session_id == 10));
    match plan_message(&t, 99, 10, &vec![1u8; 10]) {
        Err(e) => assert_eq!(e, "Path not found"),
        Ok(_) => panic!("no path is known"),
    }
}

#[test]
fn client_records_servers_and_their_types() {
    let mut c = Client::new(1, vec![11], Topology::new());
    let resp = Packet::new_flood_response(
        SourceRoutingHeader::new(vec![21, 11, 1], 2),
        3,
        flood_response(vec![(1, NodeType::Client), (11, NodeType::Drone), (21, NodeType::Server)]),
    );
    assert!(matches!(c.handle_packet(&resp), NodeReaction::Nothing));
    assert_eq!(c.servers_without_type(), vec![21]);
    assert_eq!(c.topology().path_to(21), Some(vec![1, 11, 21]));
    c.on_server_type_response(&Message {
        source_id: 21,
        session_id: 5,
        content: ServerTypeResponse::ServerType(ServerType::CommunicationServer),
    });
    assert!(c.servers_without_type().is_empty());
}

#[test]
fn client_requests_name_the_client() {
    let c = Client::new(3, vec![11, 12], Topology::new());
    let floods = c.start_flood(77);
    assert_eq!(floods.len(), 2);
    assert_eq!(floods[1].0, 12);
    assert_eq!(floods[1].1.routing_header.hops, vec![3, 12]);
    let reg = c.registration_request(40, 9);
    assert_eq!(reg.target, 40);
    assert_eq!(reg.message, Message { source_id: 3, session_id: 9, content: ChatRequest::Register(3) });
    let t = c.server_type_request(40, 10);
    assert_eq!(t.message.content, ServerTypeRequest::GetServerType);
    let chat = c.chat_message(40, "hi".to_string(), 11);
    match chat.message.content {
        ChatRequest::SendMessage { from, message } => {
            assert_eq!(from, 3);
            assert_eq!(message, "hi");
        },
        _ => panic!("expected a chat line"),
    }
}

fn lines(room: &[ChatMessage]) -> Vec<(u8, String)> {
    room.iter().map(|m| (m.sender_id, m.content.clone())).collect()
}

#[test]
fn registered_clients_are_heard_and_others_are_refused() {
    let mut s = CommunicationServer::new(40, vec![11, 12], Topology::new(), HashSet::new(), Vec::new());
    match s.on_chat_request(Message { source_id: 1, session_id: 2, content: ChatRequest::Register(1) }, 3) {
        ChatOutcome::Reply(out) => {
            assert_eq!(out.target, 1);
            assert!(matches!(out.message.content, ChatResponse::ClientRegistered(40)));
        },
        _ => panic!("expected a reply"),
    }
    assert_eq!(lines(&s.chatroom().chatroom_messages), vec![(1, "Client 1 has entered the chatroom".to_string())]);
    match s.handle_incoming_message(1, "hello".to_string(), 4) {
        ChatOutcome::ChatroomUpdated(room) => {
            assert_eq!(room.server_id, 40);
            assert_eq!(room.chatroom_messages.len(), 2);
            assert_eq!(room.chatroom_messages[1].content, "hello");
        },
        _ => panic!("expected the chatroom"),
    }
    match s.handle_incoming_message(2, "intruder".to_string(), 5) {
        ChatOutcome::Reply(out) => {
            assert_eq!(out.target, 2);
            assert!(matches!(out.message.content, ChatResponse::ClientNotRegistered));
        },
        _ => panic!("expected a refusal"),
    }
    assert_eq!(s.chatroom().chatroom_messages.len(), 2);
}

#[test]
fn registering_twice_lists_the_client_once() {
    let mut s = CommunicationServer::new(40, vec![11], Topology::new(), HashSet::new(), Vec::new());
    s.register(7);
    s.register(7);
    s.register(8);
    assert_eq!(s.client_list(), HashSet::from([7, 8]));
    match s.on_chat_request(Message { source_id: 8, session_id: 1, content: ChatRequest::ClientList }, 2) {
        ChatOutcome::Reply(out) => match out.message.content {
            ChatResponse::ClientList(l) => assert_eq!(l, HashSet::from([7, 8])),
            _ => panic!("expected the client list"),
        },
        _ => panic!("expected a reply"),
    }
    assert_eq!(s.chatroom().chatroom_messages.len(), 3);
}

#[test]
fn communication_server_answers_type_and_text() {
    let s = CommunicationServer::new(40, vec![11], Topology::new(), HashSet::new(), Vec::new());
    let t = s.on_server_type_request(&Message { source_id: 1, session_id: 2, content: ServerTypeRequest::GetServerType }, 3);
    assert_eq!(t.target, 1);
    assert_eq!(t.message.content, ServerTypeResponse::ServerType(ServerType::CommunicationServer));
    let text = s.on_text_request(&Message { source_id: 1, session_id: 2, content: TextRequest::TextList }, 3);
    assert!(matches!(text.message.content, TextResponse::NotFound));
}

#[test]
fn content_server_lists_and_serves_its_files() {
    let s = ContentServer::new(30, vec![11, 12], Topology::new(), ContentType::Text, vec![1, 5]);
    let list = s.on_text_request(&Message { source_id: 2, session_id: 1, content: TextRequest::TextList }, None, 9);
    assert!(matches!(list.message.content, TextResponse::TextList(ref l) if *l == vec![1, 5]));
    assert_eq!(list.target, 2);
    assert_eq!(list.message.session_id, 9);
    let file = s.on_text_request(
        &Message { source_id: 2, session_id: 1, content: TextRequest::Text(5) },
        Some("five".to_string()),
        9,
    );
    assert!(matches!(file.message.content, TextResponse::Text(ref t) if t == "five"));
    let unreadable = s.on_text_request(&Message { source_id: 2, session_id: 1, content: TextRequest::Text(5) }, None, 9);
    assert!(matches!(unreadable.message.content, TextResponse::NotFound));
    let missing = s.on_text_request(
        &Message { source_id: 2, session_id: 1, content: TextRequest::Text(6) },
        Some("six".to_string()),
        9,
    );
    assert!(matches!(missing.message.content, TextResponse::NotFound));
    let t = s.on_server_type_request(&Message { source_id: 2, session_id: 8, content: ServerTypeRequest::GetServerType });
    assert_eq!(t.message.session_id, 8);
    assert_eq!(t.message.content, ServerTypeResponse::ServerType(ServerType::ContentServer(ContentType::Text)));
}

#[test]
fn content_server_serves_media() {
    let mut s = ContentServer::new(31, vec![11, 12], Topology::new(), ContentType::Media, vec![3]);
    let m = s.on_media_request(&Message { source_id: 2, session_id: 1, content: MediaRequest::Media(3) }, Some(vec![9, 9]), 4);
    assert!(matches!(m.message.content, MediaResponse::Media(3, ref b) if *b == vec![9, 9]));
    let unreadable = s.on_media_request(&Message { source_id: 2, session_id: 1, content: MediaRequest::Media(3) }, None, 4);
    assert!(matches!(unreadable.message.content, MediaResponse::Media(3, ref b) if b.is_empty()));
    let absent = s.on_media_request(&Message { source_id: 2, session_id: 1, content: MediaRequest::Media(4) }, Some(vec![1]), 4);
    assert!(matches!(absent.message.content, MediaResponse::NotFound));
    let list = s.on_media_request(&Message { source_id: 2, session_id: 1, content: MediaRequest::MediaList }, None, 4);
    assert!(matches!(list.message.content, MediaResponse::MediaList(ref l) if *l == vec![3]));
    assert!(s.has_file(3));
    s.remove_drone(11);
    let floods = s.start_flood(5);
    assert_eq!(floods.len(), 1);
    assert_eq!(floods[0].0, 12);
}

#[test]
fn requests_and_responses_name_their_kind() {
    assert_eq!(TextRequest::TextList.request_type(), "TextList");
    assert_eq!(TextRequest::Text(3).request_type(), "Text");
    assert_eq!(MediaRequest::MediaList.request_type(), "MediaList");
    assert_eq!(MediaRequest::Media(1).request_type(), "Media");
    assert_eq!(ChatRequest::ClientList.request_type(), "ClientList");
    assert_eq!(ChatRequest::Register(1).request_type(), "Register");
    assert_eq!(ChatRequest::SendMessage { from: 1, message: String::new() }.request_type(), "SendMessage");
    assert_eq!(ServerTypeRequest::GetServerType.request_type(), "GetServerType");
    assert_eq!(TextResponse::NotFound.response_type(), "NotFound");
    assert_eq!(TextResponse::Text(String::new()).response_type(), "Text");
    assert_eq!(TextResponse::TextList(vec![]).response_type(), "TextList");
    assert_eq!(MediaResponse::Media(1, vec![]).response_type(), "Media");
    assert_eq!(MediaResponse::MediaList(vec![]).response_type(), "MediaList");
    assert_eq!(MediaResponse::NotFound.response_type(), "NotFound");
    assert_eq!(ChatResponse::MessageSent.response_type(), "MessageSent");
    assert_eq!(ChatResponse::ClientNotRegistered.response_type(), "ClientNotRegistered");
    assert_eq!(ChatResponse::ClientRegistered(2).response_type(), "ClientRegistered");
    assert_eq!(ChatResponse::ClientList(HashSet::new()).response_type(), "ClientList");
    assert_eq!(ChatResponse::MessageFrom { from: 1, message: vec![] }.response_type(), "MessageFrom");
    assert_eq!(ServerTypeResponse::ServerType(ServerType::CommunicationServer).response_type(), "GetServerType");
}

#[test]
fn a_server_with_no_files_answers_list_requests_with_not_found() {
    let t = ContentServer::new(30, vec![11, 12], Topology::new(), ContentType::Text, vec![]);
    let list = t.on_text_request(&Message { source_id: 2, session_id: 1, content: TextRequest::TextList }, None, 9);
    assert!(matches!(list.message.content, TextResponse::NotFound));
    let m = ContentServer::new(31, vec![11, 12], Topology::new(), ContentType::Media, vec![]);
    let list = m.on_media_request(&Message { source_id: 2, session_id: 1, content: MediaRequest::MediaList }, None, 9);
    assert!(matches!(list.message.content, MediaResponse::NotFound));
    let sent = m.send_media_response(&Message { source_id: 2, session_id: 1, content: MediaRequest::MediaList }, None);
    assert!(matches!(sent.message.content, MediaResponse::NotFound));
}
