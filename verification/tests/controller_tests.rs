use drone_network::graph::{drawing_nodes, connections, line_kind_of, position, update_topology, GraphNode, LineKind};
use drone_network::simulation::{node_label, parse_label, NetworkMap, NodeKind};
use drone_network::downloads::ClientsDownloadedData;
use std::collections::HashSet;

fn network() -> NetworkMap {
    let mut m = NetworkMap::new();
    m.insert(NodeKind::Drone, 11, vec![12, 1]);
    m.insert(NodeKind::Drone, 12, vec![11, 21]);
    m.insert(NodeKind::Client, 1, vec![11]);
    m.insert(NodeKind::Server, 21, vec![12]);
    m
}

#[test]
fn kinds_and_neighbours_are_looked_up() {
    let m = network();
    assert_eq!(m.kind_of(12), Some(NodeKind::Drone));
    assert_eq!(m.kind_of(1), Some(NodeKind::Client));
    assert_eq!(m.kind_of(21), Some(NodeKind::Server));
    assert_eq!(m.kind_of(5), None);
    assert_eq!(m.neighbors(12), Some(vec![11, 21]));
    assert_eq!(m.neighbors(5), None);
}

#[test]
fn linking_needs_both_sides_and_unlinking_restores() {
    let mut m = network();
    assert!(!m.add_sender(1, 21, true, false));
    assert_eq!(m.neighbors(1), Some(vec![11]));
    assert!(m.add_sender(1, 12, true, true));
    assert_eq!(m.neighbors(1), Some(vec![11, 12]));
    assert_eq!(m.neighbors(12), Some(vec![11, 21, 1]));
    assert!(m.remove_sender(1, 12, true, true));
    assert_eq!(m.neighbors(1), Some(vec![11]));
    assert_eq!(m.neighbors(12), Some(vec![11, 21]));
}

#[test]
fn a_command_that_was_not_delivered_changes_nothing() {
    let mut m = network();
    assert!(!m.remove_connection(11, 12, false));
    assert_eq!(m.neighbors(11), Some(vec![12, 1]));
    assert!(!m.remove_connection(99, 12, true));
    assert!(m.remove_connection(11, 12, true));
    assert_eq!(m.neighbors(11), Some(vec![1]));
}

#[test]
fn a_crashed_drone_leaves_the_map() {
    let mut m = network();
    m.remove_drone(12);
    assert_eq!(m.kind_of(12), None);
    let mut ids = m.ids(NodeKind::Drone);
    ids.sort();
    assert_eq!(ids, vec![11]);
}

#[test]
fn a_crash_drops_the_drone_where_the_command_went_out() {
    let mut m = network();
    m.crash_drone(12, &vec![11, 21], &vec![true, false]);
    assert_eq!(m.kind_of(12), None);
    assert_eq!(m.neighbors(11), Some(vec![1]));
    assert_eq!(m.neighbors(21), Some(vec![12]));
}

#[test]
fn adding_a_neighbour_twice_lists_it_once() {
    let mut m = network();
    assert!(m.add_sender(1, 21, true, true));
    assert!(m.add_sender(1, 21, true, true));
    assert_eq!(m.neighbors(1), Some(vec![11, 21]));
    assert_eq!(m.neighbors(21), Some(vec![12, 1]));
    assert_eq!(m.neighbors(11), Some(vec![12, 1]));
    assert!(m.remove_connection(1, 21, true));
    assert_eq!(m.neighbors(1), Some(vec![11]));
    // a node that is not in the map gets no list
    assert!(m.add_sender(5, 21, true, true));
    assert_eq!(m.neighbors(5), None);
}

#[test]
fn labels_name_nodes_and_read_back() {
    assert_eq!(node_label(NodeKind::Drone, 3), "Drone 3");
    assert_eq!(node_label(NodeKind::Client, 11), "Client 11");
    assert_eq!(node_label(NodeKind::Server, 255), "Server 255");
    for id in [0u8, 7, 42, 255] {
        for kind in [NodeKind::Drone, NodeKind::Client, NodeKind::Server] {
            assert_eq!(parse_label(&node_label(kind, id)), Some((kind, id)));
        }
    }
}

#[test]
fn labels_that_name_no_node() {
    assert_eq!(parse_label("Drone"), None);
    assert_eq!(parse_label("Drone x"), None);
    assert_eq!(parse_label("Drone 256"), None);
    assert_eq!(parse_label("Hub 3"), None);
    assert_eq!(parse_label("Drone +7"), Some((NodeKind::Drone, 7)));
    assert_eq!(parse_label("Server 4 (Media)"), Some((NodeKind::Server, 4)));
    assert_eq!(parse_label("  Client\t9"), None);
}

#[test]
fn drawing_lists_drones_clients_servers() {
    let nodes = drawing_nodes(&vec![11, 12], &vec![1], &vec![21]);
    assert_eq!(
        nodes,
        vec![
            GraphNode { id: 11, kind: NodeKind::Drone },
            GraphNode { id: 12, kind: NodeKind::Drone },
            GraphNode { id: 1, kind: NodeKind::Client },
            GraphNode { id: 21, kind: NodeKind::Server },
        ]
    );
    assert_eq!(position(&nodes, 21), Some(3));
    assert_eq!(position(&nodes, 99), None);
}

#[test]
fn lines_join_drawn_neighbours() {
    let (nodes, lines) = update_topology(
        &vec![(11, vec![12, 1, 99]), (12, vec![11, 21])],
        &vec![(1, vec![11])],
        &vec![21],
    );
    assert_eq!(nodes.len(), 4);
    assert_eq!(lines, vec![(0, 1), (0, 2), (1, 0), (1, 3), (2, 0)]);
    assert_eq!(line_kind_of(&nodes, 0, 1), LineKind::DroneLine);
    assert_eq!(line_kind_of(&nodes, 0, 2), LineKind::ClientLine);
    assert_eq!(line_kind_of(&nodes, 1, 3), LineKind::ServerLine);
    assert_eq!(connections(&nodes, &vec![(99, vec![11])]), Vec::<(usize, usize)>::new());
}

fn set(v: &[u64]) -> HashSet<u64> {
    v.iter().copied().collect()
}

fn sorted(v: Option<Vec<u64>>) -> Option<Vec<u64>> {
    v.map(|mut x| {
        x.sort();
        x
    })
}

#[test]
fn downloads_report_what_was_downloaded() {
    let mut d = ClientsDownloadedData::new();
    assert_eq!(d.get_know_list(1, 21), None);
    d.add_list(1, 21, set(&[3, 4, 5]));
    assert_eq!(sorted(d.get_know_list(1, 21)), Some(vec![3, 4, 5]));
    assert_eq!(d.get_know_data(1, 21), Some(vec![]));
    assert_eq!(d.get_all_know_data(1), None);
    d.add_data(1, 21, vec![4]);
    assert_eq!(d.get_know_data(1, 21), Some(vec![4]));
    d.add_data(1, 22, vec![9, 4]);
    assert_eq!(sorted(d.get_all_know_data(1)), Some(vec![4, 9]));
    assert_eq!(d.get_all_know_data(2), None);
    // listing again does not forget a download
    d.add_list(1, 21, set(&[4, 6]));
    assert_eq!(d.get_know_data(1, 21), Some(vec![4]));
    assert_eq!(sorted(d.get_know_list(1, 21)), Some(vec![3, 4, 5, 6]));
}

#[test]
fn all_downloads_are_the_downloads_of_each_server() {
    let mut d = ClientsDownloadedData::new();
    d.add_list(1, 21, set(&[3, 4]));
    d.add_list(1, 22, set(&[5]));
    d.add_data(1, 21, vec![3]);
    d.add_data(1, 22, vec![5]);
    let mut each: Vec<u64> = [21u8, 22, 23]
        .iter()
        .flat_map(|s| d.get_know_data(1, *s).unwrap_or_default())
        .collect();
    each.sort();
    each.dedup();
    assert_eq!(sorted(d.get_all_know_data(1)), Some(each));
}
