use drone_network::app_state::AppState;
use drone_network::logs::{
    command_message, filtered_logs, is_shown, log_message, logs, ClientEvent, ClientPopupScreen, DroneCommandLog,
    DroneEvent, Event, LogEntry, LogFilters, Screen, ServerEvent,
};
use drone_network::message::{
    ChatMessage, ChatResponse, Chatroom, MediaResponseForMessageContent, MessageContent, MediaResponse,
    ServerTypeRequest,
};
use drone_network::packet::{FloodResponse, NodeType, Packet, SourceRoutingHeader};
use std::collections::HashSet;
use drone_network::text::{chars_of, first_word_of, image_ids, parse_u8_of, second_word_of, text_contains};

fn packet_at(hop_index: usize, hops: Vec<u8>) -> Packet {
    Packet::new_ack(SourceRoutingHeader::new(hops, hop_index), 1, 0)
}

fn entry(timestamp: &str, message: &str) -> LogEntry {
    LogEntry { timestamp: timestamp.to_string(), message: message.to_string() }
}

#[test]
fn drone_events_name_the_current_hop() {
    let p = packet_at(1, vec![1, 11, 21]);
    assert_eq!(log_message(&Event::Drone(DroneEvent::PacketSent(p.clone())), ""), "[PACKET] Sent to Drone 11.");
    assert_eq!(log_message(&Event::Drone(DroneEvent::PacketDropped(p.clone())), ""), "[PACKET] Dropped by Drone 11");
    assert_eq!(
        log_message(&Event::Drone(DroneEvent::ControllerShortcut(p)), ""),
        "[PACKET] Routed through Controller by Drone 11."
    );
    let past = packet_at(3, vec![1, 11, 21]);
    assert_eq!(log_message(&Event::Drone(DroneEvent::PacketSent(past)), ""), "[PACKET] Sent to Drone None.");
}

#[test]
fn client_and_server_events() {
    let p = packet_at(0, vec![200, 11]);
    assert_eq!(log_message(&Event::Client(ClientEvent::PacketSent(p.clone())), ""), "[PACKET] Sent by Client 200");
    assert_eq!(log_message(&Event::Client(ClientEvent::PacketReceived(p.clone())), ""), "[PACKET] Received by Client: 200.");
    assert_eq!(log_message(&Event::Server(ServerEvent::PacketSent(p.clone())), ""), "[PACKET] Sent by Server: 200");
    assert_eq!(log_message(&Event::Server(ServerEvent::PacketReceived(p)), ""), "[PACKET] Received by Server: 200");
    let content = MessageContent::ServerTypeRequest(ServerTypeRequest::GetServerType);
    assert_eq!(
        log_message(
            &Event::Client(ClientEvent::MessageSent { from: 1, to: 21, content: content.clone() }),
            "ServerTypeRequest(GetServerType)"
        ),
        "[MESSAGE] Sent by Client: 1 to 21, content: ServerTypeRequest(GetServerType)"
    );
    assert_eq!(
        log_message(&Event::Server(ServerEvent::MessageReceived { receiver: 21, content }), "X"),
        "[MESSAGE] Received by Server: 21, content: X"
    );
    assert_eq!(
        log_message(&Event::Client(ClientEvent::BrokenDroneDetected(13)), ""),
        "[MESSAGE] Found Broken Drone, id: 13"
    );
}

#[test]
fn command_lines() {
    assert_eq!(command_message(DroneCommandLog::AddedSender(12), "Drone 11"), "[COMMAND] Added sender 12 to Drone 11");
    assert_eq!(command_message(DroneCommandLog::RemovedSender(12), "Drone 11"), "[COMMAND] Removed sender 12 from Drone 11");
    assert_eq!(command_message(DroneCommandLog::Crashing, "Drone 11"), "[COMMAND] Crashing Drone 11");
}

#[test]
fn logging_appends_a_stamped_line() {
    let mut log = Vec::new();
    logs(&mut log, &Event::Client(ClientEvent::BrokenDroneDetected(3)), "", "01-01-25 10:00:00".to_string());
    assert_eq!(log.len(), 1);
    assert_eq!(log[0].timestamp, "01-01-25 10:00:00");
    assert_eq!(log[0].message, "[MESSAGE] Found Broken Drone, id: 3");
}

#[test]
fn default_filters_show_everything() {
    let f = LogFilters::default();
    assert!(f.show_events && f.show_commands && f.show_drones && f.show_clients && f.show_servers);
    assert!(f.search_text.is_empty());
    assert!(is_shown(&f, &entry("t", "anything at all")));
    assert!(Screen::NetworkScreen != Screen::LogsScreen);
    assert!(ClientPopupScreen::Chatroom == ClientPopupScreen::Chatroom);
}

#[test]
fn filters_by_kind_component_and_search() {
    let log = vec![
        entry("01-01-25 10:00:00", "[PACKET] Sent to Drone 11."),
        entry("01-01-25 10:00:01", "[MESSAGE] Sent by Client: 1 to 21, content: x"),
        entry("02-01-25 11:00:00", "[PACKET] Received by Server: 21"),
        entry("02-01-25 11:00:01", "[COMMAND] Crashing Drone 12"),
    ];
    let mut f = LogFilters::default();
    f.show_events = false;
    let shown: Vec<&str> = filtered_logs(&log, &f).iter().map(|e| e.message.as_str()).collect();
    assert_eq!(shown, vec![log[1].message.as_str(), log[3].message.as_str()]);

    let mut f = LogFilters::default();
    f.show_drones = false;
    assert_eq!(filtered_logs(&log, &f).len(), 2);

    let mut f = LogFilters::default();
    f.search_text = "SERVER".to_string();
    let shown: Vec<&str> = filtered_logs(&log, &f).iter().map(|e| e.message.as_str()).collect();
    assert_eq!(shown, vec![log[2].message.as_str()]);

    let mut f = LogFilters::default();
    f.search_text = "02-01".to_string();
    assert_eq!(filtered_logs(&log, &f).len(), 2);

    let mut f = LogFilters::default();
    f.show_commands = false;
    f.show_servers = false;
    let shown: Vec<&str> = filtered_logs(&log, &f).iter().map(|e| e.message.as_str()).collect();
    assert_eq!(shown, vec![log[0].message.as_str(), log[3].message.as_str()]);
}

#[test]
fn words_and_numbers() {
    let s = chars_of("  Drone\t 42 rest");
    assert_eq!(first_word_of(&s), Some(chars_of("Drone")));
    assert_eq!(second_word_of(&s), Some(chars_of("42")));
    assert_eq!(first_word_of(&chars_of(" \n ")), None);
    assert_eq!(second_word_of(&chars_of("one")), None);
    assert_eq!(parse_u8_of(&chars_of("255")), Some(255));
    assert_eq!(parse_u8_of(&chars_of("256")), None);
    assert_eq!(parse_u8_of(&chars_of("+0")), Some(0));
    assert_eq!(parse_u8_of(&chars_of("+")), None);
    assert_eq!(parse_u8_of(&chars_of("")), None);
    assert_eq!(parse_u8_of(&chars_of("1a")), None);
    assert!(text_contains(&chars_of("a drone here"), &chars_of("drone")));
    assert!(text_contains(&chars_of("abc"), &chars_of("")));
    assert!(!text_contains(&chars_of("ab"), &chars_of("abc")));
    assert_eq!(chars_of("héllo").len(), 5);
}

fn client_received(receiver: u8, content: MessageContent) -> ClientEvent {
    ClientEvent::MessageReceived { receiver, content }
}

#[test]
fn window_remembers_what_events_report() {
    let mut s = AppState::new();
    assert!(s.topology_needs_update());
    s.topology_updated();
    assert!(!s.topology_needs_update());

    s.on_client_event(&client_received(1, MessageContent::ChatResponse(ChatResponse::ClientRegistered(40))));
    assert!(s.is_registered(1, 40));
    assert!(!s.is_registered(2, 40));

    s.on_client_event(&client_received(1, MessageContent::ChatResponse(ChatResponse::ClientList(HashSet::from([1, 2])))));
    assert!(s.is_registered_client(2));
    s.on_client_event(&client_received(1, MessageContent::ChatResponse(ChatResponse::ClientList(HashSet::from([3])))));
    assert!(!s.is_registered_client(2));
    assert!(s.is_registered_client(3));

    s.on_client_event(&client_received(1, MessageContent::MediaResponse(MediaResponseForMessageContent::Media(8))));
    s.on_client_event(&client_received(1, MessageContent::MediaResponse(MediaResponseForMessageContent::Media(9))));
    assert_eq!(s.images_of(1), vec![8, 9]);
    assert_eq!(s.images_of(2), Vec::<u64>::new());

    s.on_client_event(&client_received(1, MessageContent::MediaListWithServer(31, vec![8, 9, 10])));
    assert_eq!(s.image_list_of(1, 31), Some(vec![8, 9, 10]));
    assert_eq!(s.image_list_of(1, 32), None);

    let room = Chatroom { server_id: 40, chatroom_messages: vec![ChatMessage { sender_id: 1, content: "hi".to_string() }] };
    s.on_server_event(&ServerEvent::MessageReceived { receiver: 40, content: MessageContent::WholeChatVecResponse(room) });
    let got = s.chatroom_of(40).unwrap();
    assert_eq!(got.len(), 1);
    assert_eq!(got[0].content, "hi");

    let flood = Packet::new_flood_response(
        SourceRoutingHeader::new(vec![21, 11, 1], 2),
        1,
        FloodResponse { flood_id: 1, path_trace: vec![(1, NodeType::Client), (21, NodeType::Server)] },
    );
    s.on_client_event(&ClientEvent::PacketReceived(flood));
    assert!(s.topology_needs_update());
}

#[test]
fn media_response_without_bytes() {
    let m = MediaResponseForMessageContent::new(MediaResponse::Media(4, vec![1, 2, 3]));
    assert!(matches!(m, MediaResponseForMessageContent::Media(4)));
    let l = MediaResponseForMessageContent::new(MediaResponse::MediaList(vec![1, 2]));
    assert!(matches!(l, MediaResponseForMessageContent::MediaList(ref v) if *v == vec![1, 2]));
    assert!(matches!(MediaResponseForMessageContent::new(MediaResponse::NotFound), MediaResponseForMessageContent::NotFound));
}

#[test]
fn image_references_are_found_in_order() {
    assert_eq!(image_ids("see [image_12] and [image_3]."), vec![12, 3]);
    assert_eq!(image_ids("[image_]"), Vec::<u64>::new());
    assert_eq!(image_ids("[image_7"), Vec::<u64>::new());
    assert_eq!(image_ids("[image_4x]"), Vec::<u64>::new());
    assert_eq!(image_ids("[[image_5]]"), vec![5]);
    assert_eq!(image_ids("[image_99999999999999999999] [image_1]"), vec![1]);
    assert_eq!(image_ids("[image_18446744073709551615]"), vec![u64::MAX]);
    assert_eq!(image_ids("[IMAGE_1] [image_01]"), vec![1]);
    assert_eq!(image_ids(""), Vec::<u64>::new());
}
