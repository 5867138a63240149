use drone_network::config::{validate_config, ClientConfig, ConfigError, DroneConfig, NetworkConfig, ServerConfig};
use drone_network::distribution::{assign_servers, distribute_files, split_files, NUM_CONTENT_SERVERS};
use drone_network::message::{ContentType, ServerType};

fn drone(id: u8, links: Vec<u8>) -> DroneConfig {
    DroneConfig { id, connected_node_ids: links, pdr_in_range: true }
}

fn client(id: u8, links: Vec<u8>) -> ClientConfig {
    ClientConfig { id, connected_drone_ids: links }
}

fn server(id: u8, links: Vec<u8>) -> ServerConfig {
    ServerConfig { id, connected_drone_ids: links }
}

/// Drones 11 and 12 linked to each other, client 1 and server 21.
fn valid() -> NetworkConfig {
    NetworkConfig {
        drone: vec![drone(11, vec![12, 1, 21]), drone(12, vec![11, 21])],
        client: vec![client(1, vec![11])],
        server: vec![server(21, vec![11, 12])],
    }
}

#[test]
fn a_sound_configuration_passes() {
    assert_eq!(validate_config(&valid()), Ok(()));
}

#[test]
fn repeated_drone_id() {
    let mut c = valid();
    c.drone.push(drone(11, vec![12]));
    assert_eq!(validate_config(&c), Err(ConfigError::RepeatedId(11)));
}

#[test]
fn repeated_id_across_kinds() {
    let mut c = valid();
    c.client.push(client(12, vec![11]));
    assert_eq!(validate_config(&c), Err(ConfigError::RepeatedIdAcrossNodes(12)));
}

#[test]
fn drone_connected_to_itself() {
    let mut c = valid();
    c.drone[1] = drone(12, vec![11, 12]);
    assert_eq!(validate_config(&c), Err(ConfigError::DroneConnectedToItself(12)));
}

#[test]
fn drone_repeated_connection() {
    let mut c = valid();
    c.drone[1] = drone(12, vec![11, 21, 11]);
    assert_eq!(validate_config(&c), Err(ConfigError::DroneRepeatedConnection(12)));
}

#[test]
fn drone_with_drop_rate_out_of_range() {
    let mut c = valid();
    c.drone[0].pdr_in_range = false;
    assert_eq!(validate_config(&c), Err(ConfigError::InvalidPdr(11)));
}

#[test]
fn client_linked_to_a_non_drone() {
    let mut c = valid();
    c.client[0] = client(1, vec![11, 21]);
    assert_eq!(validate_config(&c), Err(ConfigError::ClientInvalidConnection(1, 21)));
}

#[test]
fn client_repeated_connection() {
    let mut c = valid();
    c.client[0] = client(1, vec![11, 11]);
    assert_eq!(validate_config(&c), Err(ConfigError::ClientRepeatedConnection(1)));
}

#[test]
fn client_with_too_many_drones() {
    let mut c = valid();
    c.drone.push(drone(13, vec![1]));
    c.client[0] = client(1, vec![11, 12, 13]);
    assert_eq!(validate_config(&c), Err(ConfigError::ClientDroneCount(1)));
    c.client[0] = client(1, vec![]);
    assert_eq!(validate_config(&c), Err(ConfigError::ClientDroneCount(1)));
}

#[test]
fn server_linked_to_a_non_drone() {
    let mut c = valid();
    c.server[0] = server(21, vec![11, 1]);
    assert_eq!(validate_config(&c), Err(ConfigError::ServerInvalidConnection(21, 1)));
}

#[test]
fn server_repeated_connection() {
    let mut c = valid();
    c.server[0] = server(21, vec![11, 11]);
    assert_eq!(validate_config(&c), Err(ConfigError::ServerRepeatedConnection(21)));
}

#[test]
fn server_with_one_drone() {
    let mut c = valid();
    c.server[0] = server(21, vec![11]);
    assert_eq!(validate_config(&c), Err(ConfigError::ServerDroneCount(21)));
}

#[test]
fn one_way_connection() {
    let mut c = valid();
    c.drone[1] = drone(12, vec![11]);
    assert_eq!(validate_config(&c), Err(ConfigError::UnidirectionalConnection(21, 12)));
}

#[test]
fn checks_come_in_order() {
    // both a repeated id and a bad drop rate: ids are checked first
    let mut c = valid();
    c.drone[0].pdr_in_range = false;
    c.server.push(server(21, vec![11, 12]));
    assert_eq!(validate_config(&c), Err(ConfigError::RepeatedId(21)));
}

#[test]
fn files_are_split_into_near_equal_parts() {
    let files: Vec<u64> = (1..=7).collect();
    let parts = split_files(&files, 2);
    assert_eq!(parts, vec![vec![1, 2, 3], vec![4, 5, 6, 7]]);
    let parts = split_files(&files, 3);
    assert_eq!(parts, vec![vec![1, 2], vec![3, 4], vec![5, 6, 7]]);
    assert_eq!(split_files(&Vec::new(), 2), vec![Vec::<u64>::new(), Vec::new()]);
}

#[test]
fn servers_get_two_text_two_media_then_chat_roles() {
    let roles = assign_servers(&vec![1, 2, 3, 4], &vec![10, 11], 5);
    assert_eq!(NUM_CONTENT_SERVERS, 4);
    assert_eq!(roles.len(), 5);
    assert_eq!(roles[0], (ServerType::ContentServer(ContentType::Text), vec![1, 2]));
    assert_eq!(roles[1], (ServerType::ContentServer(ContentType::Text), vec![3, 4]));
    assert_eq!(roles[2], (ServerType::ContentServer(ContentType::Media), vec![10]));
    assert_eq!(roles[3], (ServerType::ContentServer(ContentType::Media), vec![11]));
    assert_eq!(roles[4], (ServerType::CommunicationServer, vec![]));
}

#[test]
fn split_parts_put_back_together_give_the_list() {
    let files: Vec<u64> = (10..23).collect();
    for count in 1..5 {
        let joined: Vec<u64> = split_files(&files, count).into_iter().flatten().collect();
        assert_eq!(joined, files);
    }
}

#[test]
fn distribution_deals_every_file_once_and_every_role() {
    let text: Vec<u64> = (1..=9).collect();
    let media: Vec<u64> = (100..=104).collect();
    let roles = distribute_files(&text, &media, 6);
    assert_eq!(roles.len(), 6);
    let mut text_seen: Vec<u64> = Vec::new();
    let mut media_seen: Vec<u64> = Vec::new();
    let (mut n_text, mut n_media, mut n_chat) = (0, 0, 0);
    for (role, files) in &roles {
        match role {
            ServerType::ContentServer(ContentType::Text) => {
                n_text += 1;
                text_seen.extend(files);
            },
            ServerType::ContentServer(ContentType::Media) => {
                n_media += 1;
                media_seen.extend(files);
            },
            ServerType::CommunicationServer => {
                n_chat += 1;
                assert!(files.is_empty());
            },
        }
    }
    assert_eq!((n_text, n_media, n_chat), (2, 2, 2));
    text_seen.sort();
    media_seen.sort();
    assert_eq!(text_seen, text);
    assert_eq!(media_seen, media);
}
