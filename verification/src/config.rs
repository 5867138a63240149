//! Validation of the network configuration: unique ids, sound neighbour
//! lists, and connections that go both ways.
use vstd::prelude::*;
use crate::packet::NodeId;
use crate::drone::contains_id;

verus! {

/// A drone of the configuration; `pdr_in_range` tells whether its packet
/// drop rate lies between 0 and 1.
pub struct DroneConfig {
    pub id: NodeId,
    pub connected_node_ids: Vec<NodeId>,
    pub pdr_in_range: bool,
}

pub struct ClientConfig {
    pub id: NodeId,
    pub connected_drone_ids: Vec<NodeId>,
}

pub struct ServerConfig {
    pub id: NodeId,
    pub connected_drone_ids: Vec<NodeId>,
}

pub struct NetworkConfig {
    pub drone: Vec<DroneConfig>,
    pub client: Vec<ClientConfig>,
    pub server: Vec<ServerConfig>,
}

/// The first flaw found in a configuration.
#[derive(Clone, Copy, Debug, PartialEq, Eq, Structural)]
pub enum ConfigError {
    /// Two nodes of the same kind share this id.
    RepeatedId(NodeId),
    /// A client or server has the id of a node of another kind.
    RepeatedIdAcrossNodes(NodeId),
    /// The drone lists itself as a neighbour.
    DroneConnectedToItself(NodeId),
    /// The drone lists a neighbour twice.
    DroneRepeatedConnection(NodeId),
    /// The drone's packet drop rate is not between 0 and 1.
    InvalidPdr(NodeId),
    /// The client (first) lists a neighbour (second) that is no drone.
    ClientInvalidConnection(NodeId, NodeId),
    /// The client lists a drone twice.
    ClientRepeatedConnection(NodeId),
    /// The client has fewer than one or more than two drones.
    ClientDroneCount(NodeId),
    /// The server (first) lists a neighbour (second) that is no drone.
    ServerInvalidConnection(NodeId, NodeId),
    /// The server lists a drone twice.
    ServerRepeatedConnection(NodeId),
    /// The server has fewer than two drones.
    ServerDroneCount(NodeId),
    /// The first node lists the second, which does not list it back.
    UnidirectionalConnection(NodeId, NodeId),
}

/// Mathematical model of a configuration: per kind, id and neighbour list;
/// per drone, whether its drop rate is in range.
pub struct ConfigView {
    pub drones: Seq<(NodeId, Seq<NodeId>)>,
    pub pdr_ok: Seq<bool>,
    pub clients: Seq<(NodeId, Seq<NodeId>)>,
    pub servers: Seq<(NodeId, Seq<NodeId>)>,
}

impl View for NetworkConfig {
    type V = ConfigView;

    open spec fn view(&self) -> ConfigView {
        ConfigView {
            drones: self.drone@.map_values(|d: DroneConfig| (d.id, d.connected_node_ids@)),
            pdr_ok: self.drone@.map_values(|d: DroneConfig| d.pdr_in_range),
            clients: self.client@.map_values(|c: ClientConfig| (c.id, c.connected_drone_ids@)),
            servers: self.server@.map_values(|s: ServerConfig| (s.id, s.connected_drone_ids@)),
        }
    }
}

/// The first `Some` of `f(i)` for `i` from `start` up to `n`.
pub open spec fn first_some(n: int, f: spec_fn(int) -> Option<ConfigError>, start: int) -> Option<ConfigError>
    decreases n - start,
{
    if start >= n {
        None
    } else if f(start) is Some {
        f(start)
    } else {
        first_some(n, f, start + 1)
    }
}

/// The ids of a list of nodes.
pub open spec fn ids(s: Seq<(NodeId, Seq<NodeId>)>) -> Seq<NodeId> {
    s.map_values(|e: (NodeId, Seq<NodeId>)| e.0)
}

/// The flaw of id `k` of the ids `s` of one kind, given the ids of the
/// kinds checked before (`earlier`).
pub open spec fn id_flaw(s: Seq<NodeId>, earlier: Seq<NodeId>, k: int) -> Option<ConfigError> {
    if s.subrange(0, k).contains(s[k]) {
        Some(ConfigError::RepeatedId(s[k]))
    } else if earlier.contains(s[k]) {
        Some(ConfigError::RepeatedIdAcrossNodes(s[k]))
    } else {
        None
    }
}

/// The first id flaw among the ids `s` of one kind.
pub open spec fn id_flaws(s: Seq<NodeId>, earlier: Seq<NodeId>) -> Option<ConfigError> {
    first_some(s.len() as int, |k: int| id_flaw(s, earlier, k), 0)
}

/// The flaw of neighbour `j` of drone `d`.
pub open spec fn drone_link_flaw(d: (NodeId, Seq<NodeId>), j: int) -> Option<ConfigError> {
    if d.1[j] == d.0 {
        Some(ConfigError::DroneConnectedToItself(d.0))
    } else if d.1.subrange(0, j).contains(d.1[j]) {
        Some(ConfigError::DroneRepeatedConnection(d.0))
    } else {
        None
    }
}

/// The first flaw of drone `k`: in its neighbours, then in its drop rate.
pub open spec fn drone_flaw(c: ConfigView, k: int) -> Option<ConfigError> {
    let d = c.drones[k];
    let links = first_some(d.1.len() as int, |j: int| drone_link_flaw(d, j), 0);
    if links is Some {
        links
    } else if !c.pdr_ok[k] {
        Some(ConfigError::InvalidPdr(d.0))
    } else {
        None
    }
}

/// The flaw of neighbour `j` of client (`is_client`) or server `n`.
pub open spec fn edge_link_flaw(n: (NodeId, Seq<NodeId>), drone_ids: Seq<NodeId>, is_client: bool, j: int) -> Option<ConfigError> {
    if !drone_ids.contains(n.1[j]) {
        if is_client {
            Some(ConfigError::ClientInvalidConnection(n.0, n.1[j]))
        } else {
            Some(ConfigError::ServerInvalidConnection(n.0, n.1[j]))
        }
    } else if n.1.subrange(0, j).contains(n.1[j]) {
        if is_client {
            Some(ConfigError::ClientRepeatedConnection(n.0))
        } else {
            Some(ConfigError::ServerRepeatedConnection(n.0))
        }
    } else {
        None
    }
}

/// Whether a client (one or two drones) or a server (at least two drones)
/// has an acceptable number of neighbours.
pub open spec fn count_ok(len: int, is_client: bool) -> bool {
    if is_client {
        1 <= len <= 2
    } else {
        2 <= len
    }
}

/// The first flaw of client or server `n`: in its neighbours, then in their number.
pub open spec fn edge_flaw(n: (NodeId, Seq<NodeId>), drone_ids: Seq<NodeId>, is_client: bool) -> Option<ConfigError> {
    let links = first_some(n.1.len() as int, |j: int| edge_link_flaw(n, drone_ids, is_client, j), 0);
    if links is Some {
        links
    } else if !count_ok(n.1.len() as int, is_client) {
        if is_client {
            Some(ConfigError::ClientDroneCount(n.0))
        } else {
            Some(ConfigError::ServerDroneCount(n.0))
        }
    } else {
        None
    }
}

/// All nodes of the configuration, drones first, then clients, then servers.
pub open spec fn all_nodes(c: ConfigView) -> Seq<(NodeId, Seq<NodeId>)> {
    c.drones + c.clients + c.servers
}

/// Whether node `b` lists `a` among its neighbours.
pub open spec fn lists_back(c: ConfigView, b: NodeId, a: NodeId) -> bool {
    exists|i: int| 0 <= i < all_nodes(c).len() && #[trigger] all_nodes(c)[i].0 == b && all_nodes(c)[i].1.contains(a)
}

/// The flaw of neighbour `j` of node `n`: it must list `n` back.
pub open spec fn back_link_flaw(c: ConfigView, n: (NodeId, Seq<NodeId>), j: int) -> Option<ConfigError> {
    if lists_back(c, n.1[j], n.0) {
        None
    } else {
        Some(ConfigError::UnidirectionalConnection(n.0, n.1[j]))
    }
}

/// The first connection, over all nodes in order, that does not go both ways.
pub open spec fn direction_flaws(c: ConfigView) -> Option<ConfigError> {
    let all = all_nodes(c);
    first_some(all.len() as int, |k: int| first_some(all[k].1.len() as int, |j: int| back_link_flaw(c, all[k], j), 0), 0)
}

/// The first flaw of a configuration, checked in this order: ids of drones,
/// of clients, of servers; then each drone, each client, each server; then
/// that every connection goes both ways.
pub open spec fn first_flaw(c: ConfigView) -> Option<ConfigError> {
    let d = ids(c.drones);
    let dc = d + ids(c.clients);
    let checks = seq![
        id_flaws(d, Seq::empty()),
        id_flaws(ids(c.clients), d),
        id_flaws(ids(c.servers), dc),
        first_some(c.drones.len() as int, |k: int| drone_flaw(c, k), 0),
        first_some(c.clients.len() as int, |k: int| edge_flaw(c.clients[k], d, true), 0),
        first_some(c.servers.len() as int, |k: int| edge_flaw(c.servers[k], d, false), 0),
        direction_flaws(c),
    ];
    first_some(7, |i: int| checks[i], 0)
}

/// `first_some` from `start` equals it from `i` when nothing before `i` is `Some`.
pub proof fn lemma_first_some_skip(n: int, f: spec_fn(int) -> Option<ConfigError>, start: int, i: int)
    requires
        start <= i,
        forall|j: int| start <= j < i && j < n ==> #[trigger] f(j) is None,
    ensures
        first_some(n, f, start) == first_some(n, f, i),
    decreases i - start,
{
    if start < i && start < n {
        lemma_first_some_skip(n, f, start + 1, i);
    }
}

/// `first_some` from `i`, when `f(i)` is `Some`, is `f(i)`.
pub proof fn lemma_first_some_hit(n: int, f: spec_fn(int) -> Option<ConfigError>, start: int, i: int)
    requires
        start <= i < n,
        forall|j: int| start <= j < i ==> #[trigger] f(j) is None,
        f(i) is Some,
    ensures
        first_some(n, f, start) == f(i),
{
    lemma_first_some_skip(n, f, start, i);
}

/// `first_some` over a range where every value is `None` is `None`.
pub proof fn lemma_first_some_none(n: int, f: spec_fn(int) -> Option<ConfigError>, start: int)
    requires
        forall|j: int| start <= j < n ==> #[trigger] f(j) is None,
    ensures
        first_some(n, f, start) is None,
{
    if start < n {
        lemma_first_some_skip(n, f, start, n);
    }
}


/// The model of a node list.
pub open spec fn nodes_view(v: Seq<(NodeId, Vec<NodeId>)>) -> Seq<(NodeId, Seq<NodeId>)> {
    v.map_values(|e: (NodeId, Vec<NodeId>)| (e.0, e.1@))
}

fn drone_nodes(v: &Vec<DroneConfig>) -> (r: Vec<(NodeId, Vec<NodeId>)>)
    ensures
        nodes_view(r@) == v@.map_values(|d: DroneConfig| (d.id, d.connected_node_ids@)),
{
    let mut r: Vec<(NodeId, Vec<NodeId>)> = Vec::new();
    let mut i: usize = 0;
    while i < v.len()
        invariant
            i <= v.len(),
            r@.len() == i,
            nodes_view(r@) == v@.subrange(0, i as int).map_values(|d: DroneConfig| (d.id, d.connected_node_ids@)),
        decreases v.len() - i,
    {
        let ghost r0 = r@;
        r.push((v[i].id, v[i].connected_node_ids.clone()));
        i = i + 1;
        proof {
            assert forall|k: int| 0 <= k < i implies #[trigger] nodes_view(r@)[k] == v@.subrange(0, i as int).map_values(|d: DroneConfig| (d.id, d.connected_node_ids@))[k] by {
                if k < i - 1 {
                    assert(r@[k] == r0[k]);
                    assert(nodes_view(r0)[k] == v@.subrange(0, i - 1).map_values(|d: DroneConfig| (d.id, d.connected_node_ids@))[k]);
                }
            }
            assert(nodes_view(r@) =~= v@.subrange(0, i as int).map_values(|d: DroneConfig| (d.id, d.connected_node_ids@)));
        }
    }
    proof {
        assert(v@.subrange(0, v@.len() as int) =~= v@);
    }
    r
}

fn client_nodes(v: &Vec<ClientConfig>) -> (r: Vec<(NodeId, Vec<NodeId>)>)
    ensures
        nodes_view(r@) == v@.map_values(|c: ClientConfig| (c.id, c.connected_drone_ids@)),
{
    let mut r: Vec<(NodeId, Vec<NodeId>)> = Vec::new();
    let mut i: usize = 0;
    while i < v.len()
        invariant
            i <= v.len(),
            r@.len() == i,
            nodes_view(r@) == v@.subrange(0, i as int).map_values(|c: ClientConfig| (c.id, c.connected_drone_ids@)),
        decreases v.len() - i,
    {
        let ghost r0 = r@;
        r.push((v[i].id, v[i].connected_drone_ids.clone()));
        i = i + 1;
        proof {
            assert forall|k: int| 0 <= k < i implies #[trigger] nodes_view(r@)[k] == v@.subrange(0, i as int).map_values(|c: ClientConfig| (c.id, c.connected_drone_ids@))[k] by {
                if k < i - 1 {
                    assert(r@[k] == r0[k]);
                    assert(nodes_view(r0)[k] == v@.subrange(0, i - 1).map_values(|c: ClientConfig| (c.id, c.connected_drone_ids@))[k]);
                }
            }
            assert(nodes_view(r@) =~= v@.subrange(0, i as int).map_values(|c: ClientConfig| (c.id, c.connected_drone_ids@)));
        }
    }
    proof {
        assert(v@.subrange(0, v@.len() as int) =~= v@);
    }
    r
}

fn server_nodes(v: &Vec<ServerConfig>) -> (r: Vec<(NodeId, Vec<NodeId>)>)
    ensures
        nodes_view(r@) == v@.map_values(|s: ServerConfig| (s.id, s.connected_drone_ids@)),
{
    let mut r: Vec<(NodeId, Vec<NodeId>)> = Vec::new();
    let mut i: usize = 0;
    while i < v.len()
        invariant
            i <= v.len(),
            r@.len() == i,
            nodes_view(r@) == v@.subrange(0, i as int).map_values(|s: ServerConfig| (s.id, s.connected_drone_ids@)),
        decreases v.len() - i,
    {
        let ghost r0 = r@;
        r.push((v[i].id, v[i].connected_drone_ids.clone()));
        i = i + 1;
        proof {
            assert forall|k: int| 0 <= k < i implies #[trigger] nodes_view(r@)[k] == v@.subrange(0, i as int).map_values(|s: ServerConfig| (s.id, s.connected_drone_ids@))[k] by {
                if k < i - 1 {
                    assert(r@[k] == r0[k]);
                    assert(nodes_view(r0)[k] == v@.subrange(0, i - 1).map_values(|s: ServerConfig| (s.id, s.connected_drone_ids@))[k]);
                }
            }
            assert(nodes_view(r@) =~= v@.subrange(0, i as int).map_values(|s: ServerConfig| (s.id, s.connected_drone_ids@)));
        }
    }
    proof {
        assert(v@.subrange(0, v@.len() as int) =~= v@);
    }
    r
}

fn id_list(v: &Vec<(NodeId, Vec<NodeId>)>) -> (r: Vec<NodeId>)
    ensures
        r@ == ids(nodes_view(v@)),
{
    let mut r: Vec<NodeId> = Vec::new();
    let mut i: usize = 0;
    while i < v.len()
        invariant
            i <= v.len(),
            r@ == ids(nodes_view(v@.subrange(0, i as int))),
        decreases v.len() - i,
    {
        r.push(v[i].0);
        i = i + 1;
        proof {
            assert(r@ =~= ids(nodes_view(v@.subrange(0, i as int))));
        }
    }
    proof {
        assert(v@.subrange(0, v@.len() as int) =~= v@);
    }
    r
}

/// Whether `x` occurs in `v[..end]`.
fn contains_before(v: &Vec<NodeId>, end: usize, x: NodeId) -> (r: bool)
    requires
        end <= v.len(),
    ensures
        r == v@.subrange(0, end as int).contains(x),
{
    let mut i: usize = 0;
    while i < end
        invariant
            i <= end,
            end <= v.len(),
            forall|j: int| 0 <= j < i ==> v@[j] != x,
        decreases end - i,
    {
        if v[i] == x {
            proof {
                assert(v@.subrange(0, end as int)[i as int] == x);
            }
            return true;
        }
        i = i + 1;
    }
    proof {
        if v@.subrange(0, end as int).contains(x) {
            let k = choose|k: int| 0 <= k < end && v@.subrange(0, end as int)[k] == x;
            assert(v@[k] == x);
        }
    }
    false
}

fn check_ids(s: &Vec<NodeId>, earlier: &Vec<NodeId>) -> (r: Option<ConfigError>)
    ensures
        r == id_flaws(s@, earlier@),
{
    let ghost f = |k: int| id_flaw(s@, earlier@, k);
    let mut k: usize = 0;
    while k < s.len()
        invariant
            k <= s.len(),
            f == (|k: int| id_flaw(s@, earlier@, k)),
            forall|j: int| 0 <= j < k ==> #[trigger] f(j) is None,
        decreases s.len() - k,
    {
        let e = if contains_before(s, k, s[k]) {
            Some(ConfigError::RepeatedId(s[k]))
        } else if contains_id(earlier, s[k]) {
            Some(ConfigError::RepeatedIdAcrossNodes(s[k]))
        } else {
            None
        };
        if e.is_some() {
            proof {
                lemma_first_some_hit(s@.len() as int, f, 0, k as int);
            }
            return e;
        }
        k = k + 1;
    }
    proof {
        lemma_first_some_none(s@.len() as int, f, 0);
    }
    None
}

fn check_drone_links(d: &(NodeId, Vec<NodeId>)) -> (r: Option<ConfigError>)
    ensures
        r == first_some(d.1@.len() as int, |j: int| drone_link_flaw((d.0, d.1@), j), 0),
{
    let ghost dv = (d.0, d.1@);
    let ghost f = |j: int| drone_link_flaw(dv, j);
    let mut j: usize = 0;
    while j < d.1.len()
        invariant
            j <= d.1.len(),
            dv == (d.0, d.1@),
            f == (|j: int| drone_link_flaw(dv, j)),
            forall|i: int| 0 <= i < j ==> #[trigger] f(i) is None,
        decreases d.1.len() - j,
    {
        let e = if d.1[j] == d.0 {
            Some(ConfigError::DroneConnectedToItself(d.0))
        } else if contains_before(&d.1, j, d.1[j]) {
            Some(ConfigError::DroneRepeatedConnection(d.0))
        } else {
            None
        };
        if e.is_some() {
            proof {
                lemma_first_some_hit(d.1@.len() as int, f, 0, j as int);
            }
            return e;
        }
        j = j + 1;
    }
    proof {
        lemma_first_some_none(d.1@.len() as int, f, 0);
    }
    None
}

fn check_edge(n: &(NodeId, Vec<NodeId>), drone_ids: &Vec<NodeId>, is_client: bool) -> (r: Option<ConfigError>)
    ensures
        r == edge_flaw((n.0, n.1@), drone_ids@, is_client),
{
    let ghost nv = (n.0, n.1@);
    let ghost f = |j: int| edge_link_flaw(nv, drone_ids@, is_client, j);
    let mut j: usize = 0;
    while j < n.1.len()
        invariant
            j <= n.1.len(),
            nv == (n.0, n.1@),
            f == (|j: int| edge_link_flaw(nv, drone_ids@, is_client, j)),
            forall|i: int| 0 <= i < j ==> #[trigger] f(i) is None,
        decreases n.1.len() - j,
    {
        let e = if !contains_id(drone_ids, n.1[j]) {
            if is_client {
                Some(ConfigError::ClientInvalidConnection(n.0, n.1[j]))
            } else {
                Some(ConfigError::ServerInvalidConnection(n.0, n.1[j]))
            }
        } else if contains_before(&n.1, j, n.1[j]) {
            if is_client {
                Some(ConfigError::ClientRepeatedConnection(n.0))
            } else {
                Some(ConfigError::ServerRepeatedConnection(n.0))
            }
        } else {
            None
        };
        if e.is_some() {
            proof {
                lemma_first_some_hit(n.1@.len() as int, f, 0, j as int);
            }
            return e;
        }
        j = j + 1;
    }
    proof {
        lemma_first_some_none(n.1@.len() as int, f, 0);
    }
    let len = n.1.len();
    let count_ok = if is_client {
        1 <= len && len <= 2
    } else {
        2 <= len
    };
    if !count_ok {
        if is_client {
            Some(ConfigError::ClientDroneCount(n.0))
        } else {
            Some(ConfigError::ServerDroneCount(n.0))
        }
    } else {
        None
    }
}

fn check_edges(nodes: &Vec<(NodeId, Vec<NodeId>)>, drone_ids: &Vec<NodeId>, is_client: bool) -> (r: Option<ConfigError>)
    ensures
        r == first_some(nodes@.len() as int, |k: int| edge_flaw(nodes_view(nodes@)[k], drone_ids@, is_client), 0),
{
    let ghost f = |k: int| edge_flaw(nodes_view(nodes@)[k], drone_ids@, is_client);
    let mut k: usize = 0;
    while k < nodes.len()
        invariant
            k <= nodes.len(),
            f == (|k: int| edge_flaw(nodes_view(nodes@)[k], drone_ids@, is_client)),
            forall|i: int| 0 <= i < k ==> #[trigger] f(i) is None,
        decreases nodes.len() - k,
    {
        let e = check_edge(&nodes[k], drone_ids, is_client);
        proof {
            assert(nodes_view(nodes@)[k as int] == (nodes@[k as int].0, nodes@[k as int].1@));
        }
        if e.is_some() {
            proof {
                lemma_first_some_hit(nodes@.len() as int, f, 0, k as int);
            }
            return e;
        }
        k = k + 1;
    }
    proof {
        lemma_first_some_none(nodes@.len() as int, f, 0);
    }
    None
}


fn lists_back_exec(all: &Vec<(NodeId, Vec<NodeId>)>, b: NodeId, a: NodeId) -> (r: bool)
    ensures
        r == (exists|i: int| 0 <= i < nodes_view(all@).len() && #[trigger] nodes_view(all@)[i].0 == b && nodes_view(all@)[i].1.contains(a)),
{
    let mut i: usize = 0;
    while i < all.len()
        invariant
            i <= all.len(),
            forall|j: int| 0 <= j < i ==> !(#[trigger] nodes_view(all@)[j].0 == b && nodes_view(all@)[j].1.contains(a)),
        decreases all.len() - i,
    {
        proof {
            assert(nodes_view(all@)[i as int] == (all@[i as int].0, all@[i as int].1@));
        }
        if all[i].0 == b && contains_id(&all[i].1, a) {
            proof {
                assert(nodes_view(all@)[i as int].0 == b && nodes_view(all@)[i as int].1.contains(a));
            }
            return true;
        }
        i = i + 1;
    }
    false
}

fn check_back_links(all: &Vec<(NodeId, Vec<NodeId>)>, c: Ghost<ConfigView>, k: usize) -> (r: Option<ConfigError>)
    requires
        nodes_view(all@) == all_nodes(c@),
        k < all@.len(),
    ensures
        r == first_some(all_nodes(c@)[k as int].1.len() as int, |j: int| back_link_flaw(c@, all_nodes(c@)[k as int], j), 0),
{
    let ghost n = all_nodes(c@)[k as int];
    let ghost f = |j: int| back_link_flaw(c@, n, j);
    proof {
        assert(nodes_view(all@)[k as int] == (all@[k as int].0, all@[k as int].1@));
    }
    let node = &all[k];
    let mut j: usize = 0;
    while j < node.1.len()
        invariant
            j <= node.1.len(),
            nodes_view(all@) == all_nodes(c@),
            n == (node.0, node.1@),
            n == all_nodes(c@)[k as int],
            f == (|j: int| back_link_flaw(c@, n, j)),
            forall|i: int| 0 <= i < j ==> #[trigger] f(i) is None,
        decreases node.1.len() - j,
    {
        let back = lists_back_exec(all, node.1[j], node.0);
        proof {
            assert(back == lists_back(c@, n.1[j as int], n.0));
        }
        if !back {
            proof {
                assert(!lists_back(c@, n.1[j as int], n.0));
                assert(f(j as int) == Some(ConfigError::UnidirectionalConnection(node.0, node.1@[j as int])));
                lemma_first_some_hit(n.1.len() as int, f, 0, j as int);
            }
            proof {
                assert(f =~= (|j: int| back_link_flaw(c@, all_nodes(c@)[k as int], j)));
            }
            return Some(ConfigError::UnidirectionalConnection(node.0, node.1[j]));
        }
        j = j + 1;
    }
    proof {
        lemma_first_some_none(n.1.len() as int, f, 0);
        assert(f =~= (|j: int| back_link_flaw(c@, all_nodes(c@)[k as int], j)));
    }
    None
}

fn check_directions(all: &Vec<(NodeId, Vec<NodeId>)>, c: Ghost<ConfigView>) -> (r: Option<ConfigError>)
    requires
        nodes_view(all@) == all_nodes(c@),
    ensures
        r == direction_flaws(c@),
{
    let ghost a = all_nodes(c@);
    let ghost f = |k: int| first_some(a[k].1.len() as int, |j: int| back_link_flaw(c@, a[k], j), 0);
    let mut k: usize = 0;
    while k < all.len()
        invariant
            k <= all.len(),
            nodes_view(all@) == all_nodes(c@),
            a == all_nodes(c@),
            f == (|k: int| first_some(a[k].1.len() as int, |j: int| back_link_flaw(c@, a[k], j), 0)),
            forall|i: int| 0 <= i < k ==> #[trigger] f(i) is None,
        decreases all.len() - k,
    {
        let e = check_back_links(all, c, k);
        if e.is_some() {
            proof {
                lemma_first_some_hit(a.len() as int, f, 0, k as int);
            }
            return e;
        }
        k = k + 1;
    }
    proof {
        lemma_first_some_none(a.len() as int, f, 0);
    }
    None
}

fn check_drones(drones: &Vec<(NodeId, Vec<NodeId>)>, cfg: &NetworkConfig) -> (r: Option<ConfigError>)
    requires
        nodes_view(drones@) == cfg@.drones,
    ensures
        r == first_some(cfg@.drones.len() as int, |k: int| drone_flaw(cfg@, k), 0),
{
    let ghost f = |k: int| drone_flaw(cfg@, k);
    let mut k: usize = 0;
    while k < drones.len()
        invariant
            k <= drones.len(),
            nodes_view(drones@) == cfg@.drones,
            drones@.len() == cfg.drone@.len(),
            f == (|k: int| drone_flaw(cfg@, k)),
            forall|i: int| 0 <= i < k ==> #[trigger] f(i) is None,
        decreases drones.len() - k,
    {
        proof {
            assert(nodes_view(drones@)[k as int] == (drones@[k as int].0, drones@[k as int].1@));
            assert(cfg@.pdr_ok[k as int] == cfg.drone@[k as int].pdr_in_range);
        }
        let links = check_drone_links(&drones[k]);
        let e = if links.is_some() {
            links
        } else if !cfg.drone[k].pdr_in_range {
            Some(ConfigError::InvalidPdr(drones[k].0))
        } else {
            None
        };
        if e.is_some() {
            proof {
                lemma_first_some_hit(cfg@.drones.len() as int, f, 0, k as int);
            }
            return e;
        }
        k = k + 1;
    }
    proof {
        lemma_first_some_none(cfg@.drones.len() as int, f, 0);
    }
    None
}

fn concat_ids(a: &Vec<NodeId>, b: &Vec<NodeId>) -> (r: Vec<NodeId>)
    ensures
        r@ == a@ + b@,
{
    let mut r = a.clone();
    let mut i: usize = 0;
    while i < b.len()
        invariant
            i <= b.len(),
            r@ == a@ + b@.subrange(0, i as int),
        decreases b.len() - i,
    {
        r.push(b[i]);
        i = i + 1;
        proof {
            assert(r@ =~= a@ + b@.subrange(0, i as int));
        }
    }
    proof {
        assert(b@.subrange(0, b@.len() as int) =~= b@);
    }
    r
}

/// Checks a configuration and gives its first flaw (see `first_flaw`).
pub fn validate_config(cfg: &NetworkConfig) -> (r: Result<(), ConfigError>)
    ensures
        r == (match first_flaw(cfg@) {
            None => Ok(()),
            Some(e) => Err(e),
        }),
{
    let ghost c = cfg@;
    let ghost d = ids(c.drones);
    let ghost dc = d + ids(c.clients);
    let ghost checks = seq![
        id_flaws(d, Seq::empty()),
        id_flaws(ids(c.clients), d),
        id_flaws(ids(c.servers), dc),
        first_some(c.drones.len() as int, |k: int| drone_flaw(c, k), 0),
        first_some(c.clients.len() as int, |k: int| edge_flaw(c.clients[k], d, true), 0),
        first_some(c.servers.len() as int, |k: int| edge_flaw(c.servers[k], d, false), 0),
        direction_flaws(c),
    ];
    let ghost g = |i: int| checks[i];
    assert(first_flaw(c) == first_some(7, g, 0));
    let drones = drone_nodes(&cfg.drone);
    let mut clients = client_nodes(&cfg.client);
    let mut servers = server_nodes(&cfg.server);
    let d_ids = id_list(&drones);
    let c_ids = id_list(&clients);
    let s_ids = id_list(&servers);
    let empty: Vec<NodeId> = Vec::new();
    let mut results: Vec<Option<ConfigError>> = Vec::new();
    results.push(check_ids(&d_ids, &empty));
    results.push(check_ids(&c_ids, &d_ids));
    let dc_ids = concat_ids(&d_ids, &c_ids);
    results.push(check_ids(&s_ids, &dc_ids));
    results.push(check_drones(&drones, cfg));
    let e5 = check_edges(&clients, &d_ids, true);
    proof {
        assert((|k: int| edge_flaw(nodes_view(clients@)[k], d_ids@, true)) =~= (|k: int| edge_flaw(c.clients[k], d, true)));
    }
    results.push(e5);
    let e6 = check_edges(&servers, &d_ids, false);
    proof {
        assert((|k: int| edge_flaw(nodes_view(servers@)[k], d_ids@, false)) =~= (|k: int| edge_flaw(c.servers[k], d, false)));
    }
    results.push(e6);
    let mut all = drones;
    all.append(&mut clients);
    all.append(&mut servers);
    proof {
        assert(nodes_view(all@) =~= all_nodes(c));
    }
    results.push(check_directions(&all, Ghost(c)));
    proof {
        assert(results@ =~= checks);
        assert(results@.len() == 7);
    }
    let mut i: usize = 0;
    while i < 7
        invariant
            i <= 7,
            results.len() == 7,
            results@ == checks,
            c == cfg@,
            first_flaw(c) == first_some(7, g, 0),
            g == (|i: int| checks[i]),
            forall|j: int| 0 <= j < i ==> #[trigger] g(j) is None,
        decreases 7 - i,
    {
        if results[i].is_some() {
            let e = results[i].unwrap();
            proof {
                lemma_first_some_hit(7, g, 0, i as int);
                assert(g(i as int) == Some(e));
                assert(first_flaw(c) == Some(e));
            }
            return Err(e);
        }
        i = i + 1;
    }
    proof {
        lemma_first_some_none(7, g, 0);
    }
    Ok(())
}

/// `first_some` is `None` exactly when every value in the range is `None`.
proof fn lemma_first_some_none_iff(n: int, f: spec_fn(int) -> Option<ConfigError>, start: int)
    ensures
        (first_some(n, f, start) is None) <==> (forall|j: int| start <= j < n ==> #[trigger] f(j) is None),
    decreases n - start,
{
    if start < n {
        lemma_first_some_none_iff(n, f, start + 1);
        if first_some(n, f, start) is None {
            assert forall|j: int| start <= j < n implies #[trigger] f(j) is None by {
                if j > start {
                    assert(f(j) is None);
                }
            }
        }
    }
}

/// The ids `s` are distinct and none of them is among `earlier`.
pub open spec fn fresh_after(s: Seq<NodeId>, earlier: Seq<NodeId>) -> bool {
    &&& s.no_duplicates()
    &&& forall|k: int| 0 <= k < s.len() ==> !earlier.contains(#[trigger] s[k])
}

/// No element of `s` occurs before its position exactly when `s` has no
/// duplicates.
proof fn lemma_no_earlier_copy(s: Seq<NodeId>)
    ensures
        (forall|k: int| 0 <= k < s.len() ==> !#[trigger] s.subrange(0, k).contains(s[k])) <==> s.no_duplicates(),
{
    if forall|k: int| 0 <= k < s.len() ==> !#[trigger] s.subrange(0, k).contains(s[k]) {
        assert forall|i: int, j: int| 0 <= i < s.len() && 0 <= j < s.len() && i != j implies s[i] != s[j] by {
            if i < j {
                assert(s.subrange(0, j)[i] == s[i]);
                assert(!s.subrange(0, j).contains(s[j]));
            } else {
                assert(s.subrange(0, i)[j] == s[j]);
                assert(!s.subrange(0, i).contains(s[i]));
            }
        }
    }
    if s.no_duplicates() {
        assert forall|k: int| 0 <= k < s.len() implies !#[trigger] s.subrange(0, k).contains(s[k]) by {
            if s.subrange(0, k).contains(s[k]) {
                let i = choose|i: int| 0 <= i < k && s.subrange(0, k)[i] == s[k];
                assert(s[i] == s[k]);
            }
        }
    }
}

/// The id checks of one kind find nothing exactly when its ids are fresh.
proof fn lemma_id_flaws(s: Seq<NodeId>, earlier: Seq<NodeId>)
    ensures
        (id_flaws(s, earlier) is None) <==> fresh_after(s, earlier),
{
    let f = |k: int| id_flaw(s, earlier, k);
    lemma_first_some_none_iff(s.len() as int, f, 0);
    lemma_no_earlier_copy(s);
    if id_flaws(s, earlier) is None {
        assert forall|k: int| 0 <= k < s.len() implies !#[trigger] s.subrange(0, k).contains(s[k]) by {
            assert(f(k) is None);
        }
        assert forall|k: int| 0 <= k < s.len() implies !earlier.contains(#[trigger] s[k]) by {
            assert(f(k) is None);
        }
    }
    if fresh_after(s, earlier) {
        assert forall|k: int| 0 <= k < s.len() implies #[trigger] f(k) is None by {
            assert(!s.subrange(0, k).contains(s[k]));
            assert(!earlier.contains(s[k]));
        }
    }
}

/// Ids `e` followed by ids `s` are all distinct exactly when each part is
/// and no id of `s` is in `e`.
proof fn lemma_concat_no_dup(e: Seq<NodeId>, s: Seq<NodeId>)
    ensures
        (e + s).no_duplicates() <==> (e.no_duplicates() && fresh_after(s, e)),
{
    let t = e + s;
    if t.no_duplicates() {
        assert forall|i: int, j: int| 0 <= i < e.len() && 0 <= j < e.len() && i != j implies e[i] != e[j] by {
            assert(t[i] == e[i] && t[j] == e[j]);
        }
        assert forall|i: int, j: int| 0 <= i < s.len() && 0 <= j < s.len() && i != j implies s[i] != s[j] by {
            assert(t[e.len() + i] == s[i] && t[e.len() + j] == s[j]);
        }
        assert forall|k: int| 0 <= k < s.len() implies !e.contains(#[trigger] s[k]) by {
            if e.contains(s[k]) {
                let i = choose|i: int| 0 <= i < e.len() && e[i] == s[k];
                assert(t[i] == t[e.len() + k]);
            }
        }
    }
    if e.no_duplicates() && fresh_after(s, e) {
        assert forall|i: int, j: int| 0 <= i < t.len() && 0 <= j < t.len() && i != j implies t[i] != t[j] by {
            if i < e.len() && j < e.len() {
            } else if i >= e.len() && j >= e.len() {
                assert(t[i] == s[i - e.len()] && t[j] == s[j - e.len()]);
            } else if i < e.len() {
                assert(t[j] == s[j - e.len()]);
                assert(!e.contains(s[j - e.len()]));
            } else {
                assert(t[i] == s[i - e.len()]);
                assert(!e.contains(s[i - e.len()]));
            }
        }
    }
}

/// A drone lists neither itself nor any node twice, and its drop rate is in
/// range.
pub open spec fn drone_ok(c: ConfigView, k: int) -> bool {
    let d = c.drones[k];
    &&& !d.1.contains(d.0)
    &&& d.1.no_duplicates()
    &&& c.pdr_ok[k]
}

/// A client or server lists only drones, none twice, and as many as its kind
/// allows.
pub open spec fn edge_ok(n: (NodeId, Seq<NodeId>), drone_ids: Seq<NodeId>, is_client: bool) -> bool {
    &&& forall|j: int| 0 <= j < n.1.len() ==> drone_ids.contains(#[trigger] n.1[j])
    &&& n.1.no_duplicates()
    &&& count_ok(n.1.len() as int, is_client)
}

/// Every node that a node lists lists it back.
pub open spec fn links_both_ways(c: ConfigView) -> bool {
    forall|k: int, j: int|
        0 <= k < all_nodes(c).len() && 0 <= j < all_nodes(c)[k].1.len() ==> lists_back(
            c,
            #[trigger] all_nodes(c)[k].1[j],
            all_nodes(c)[k].0,
        )
}

/// A well-formed configuration: ids unique over all nodes, sound neighbour
/// lists and drop rates, and connections that go both ways.
pub open spec fn well_formed(c: ConfigView) -> bool {
    &&& ids(all_nodes(c)).no_duplicates()
    &&& forall|k: int| 0 <= k < c.drones.len() ==> #[trigger] drone_ok(c, k)
    &&& forall|k: int| 0 <= k < c.clients.len() ==> #[trigger] edge_ok(c.clients[k], ids(c.drones), true)
    &&& forall|k: int| 0 <= k < c.servers.len() ==> #[trigger] edge_ok(c.servers[k], ids(c.drones), false)
    &&& links_both_ways(c)
}

proof fn lemma_drone_flaw(c: ConfigView, k: int)
    requires
        0 <= k < c.drones.len(),
    ensures
        (drone_flaw(c, k) is None) <==> drone_ok(c, k),
{
    let d = c.drones[k];
    let f = |j: int| drone_link_flaw(d, j);
    lemma_first_some_none_iff(d.1.len() as int, f, 0);
    lemma_no_earlier_copy(d.1);
    if drone_flaw(c, k) is None {
        assert forall|j: int| 0 <= j < d.1.len() implies !#[trigger] d.1.subrange(0, j).contains(d.1[j]) by {
            assert(f(j) is None);
        }
        assert(!d.1.contains(d.0)) by {
            if d.1.contains(d.0) {
                let j = choose|j: int| 0 <= j < d.1.len() && d.1[j] == d.0;
                assert(f(j) is Some);
            }
        }
    }
    if drone_ok(c, k) {
        assert forall|j: int| 0 <= j < d.1.len() implies #[trigger] f(j) is None by {
            assert(!d.1.subrange(0, j).contains(d.1[j]));
            assert(d.1[j] != d.0);
        }
    }
}

proof fn lemma_edge_flaw(n: (NodeId, Seq<NodeId>), drone_ids: Seq<NodeId>, is_client: bool)
    ensures
        (edge_flaw(n, drone_ids, is_client) is None) <==> edge_ok(n, drone_ids, is_client),
{
    let f = |j: int| edge_link_flaw(n, drone_ids, is_client, j);
    lemma_first_some_none_iff(n.1.len() as int, f, 0);
    lemma_no_earlier_copy(n.1);
    if edge_flaw(n, drone_ids, is_client) is None {
        assert forall|j: int| 0 <= j < n.1.len() implies !#[trigger] n.1.subrange(0, j).contains(n.1[j]) by {
            assert(f(j) is None);
        }
        assert forall|j: int| 0 <= j < n.1.len() implies drone_ids.contains(#[trigger] n.1[j]) by {
            assert(f(j) is None);
        }
    }
    if edge_ok(n, drone_ids, is_client) {
        assert forall|j: int| 0 <= j < n.1.len() implies #[trigger] f(j) is None by {
            assert(!n.1.subrange(0, j).contains(n.1[j]));
            assert(drone_ids.contains(n.1[j]));
        }
    }
}

proof fn lemma_direction_flaws(c: ConfigView)
    ensures
        (direction_flaws(c) is None) <==> links_both_ways(c),
{
    let all = all_nodes(c);
    let g = |k: int| first_some(all[k].1.len() as int, |j: int| back_link_flaw(c, all[k], j), 0);
    lemma_first_some_none_iff(all.len() as int, g, 0);
    assert forall|k: int| 0 <= k < all.len() implies ((#[trigger] g(k) is None) <==> (forall|j: int|
        0 <= j < all[k].1.len() ==> lists_back(c, all[k].1[j], all[k].0))) by {
        let f = |j: int| back_link_flaw(c, all[k], j);
        lemma_first_some_none_iff(all[k].1.len() as int, f, 0);
        if g(k) is None {
            assert forall|j: int| 0 <= j < all[k].1.len() implies lists_back(c, all[k].1[j], all[k].0) by {
                assert(f(j) is None);
            }
        }
        if forall|j: int| 0 <= j < all[k].1.len() ==> lists_back(c, all[k].1[j], all[k].0) {
            assert forall|j: int| 0 <= j < all[k].1.len() implies #[trigger] f(j) is None by {
                assert(lists_back(c, all[k].1[j], all[k].0));
            }
        }
    }
    if direction_flaws(c) is None {
        assert forall|k: int, j: int| 0 <= k < all.len() && 0 <= j < all[k].1.len() implies lists_back(
            c,
            #[trigger] all[k].1[j],
            all[k].0,
        ) by {
            assert(g(k) is None);
        }
    }
    if links_both_ways(c) {
        assert forall|k: int| 0 <= k < all.len() implies #[trigger] g(k) is None by {
            assert forall|j: int| 0 <= j < all[k].1.len() implies lists_back(c, all[k].1[j], all[k].0) by {
                assert(lists_back(c, all[k].1[j], all[k].0));
            }
        }
    }
}

/// A configuration passes the checks exactly when it is well formed.
pub proof fn law_valid_iff_well_formed(cfg: NetworkConfig)
    ensures
        (first_flaw(cfg@) is None) <==> well_formed(cfg@),
{
    let c = cfg@;
    let d = ids(c.drones);
    let dc = d + ids(c.clients);
    let checks = seq![
        id_flaws(d, Seq::empty()),
        id_flaws(ids(c.clients), d),
        id_flaws(ids(c.servers), dc),
        first_some(c.drones.len() as int, |k: int| drone_flaw(c, k), 0),
        first_some(c.clients.len() as int, |k: int| edge_flaw(c.clients[k], d, true), 0),
        first_some(c.servers.len() as int, |k: int| edge_flaw(c.servers[k], d, false), 0),
        direction_flaws(c),
    ];
    let top = |i: int| checks[i];
    lemma_first_some_none_iff(7, top, 0);
    assert((first_flaw(c) is None) <==> (forall|i: int| 0 <= i < 7 ==> #[trigger] top(i) is None));
    assert((forall|i: int| 0 <= i < 7 ==> #[trigger] top(i) is None) <==> (checks[0] is None && checks[1] is None
        && checks[2] is None && checks[3] is None && checks[4] is None && checks[5] is None && checks[6] is None)) by {
        if checks[0] is None && checks[1] is None && checks[2] is None && checks[3] is None && checks[4] is None
            && checks[5] is None && checks[6] is None {
            assert forall|i: int| 0 <= i < 7 implies #[trigger] top(i) is None by {
                if i == 0 {} else if i == 1 {} else if i == 2 {} else if i == 3 {} else if i == 4 {} else if i == 5 {} else {}
            }
        }
        if forall|i: int| 0 <= i < 7 ==> #[trigger] top(i) is None {
            assert(top(0) is None && top(1) is None && top(2) is None && top(3) is None);
            assert(top(4) is None && top(5) is None && top(6) is None);
        }
    }
    // ids
    lemma_id_flaws(d, Seq::empty());
    lemma_id_flaws(ids(c.clients), d);
    lemma_id_flaws(ids(c.servers), dc);
    lemma_concat_no_dup(d, ids(c.clients));
    lemma_concat_no_dup(dc, ids(c.servers));
    assert(ids(all_nodes(c)) =~= dc + ids(c.servers));
    assert(fresh_after(d, Seq::empty()) <==> d.no_duplicates());
    // drones, clients, servers
    let fd = |k: int| drone_flaw(c, k);
    lemma_first_some_none_iff(c.drones.len() as int, fd, 0);
    assert forall|k: int| 0 <= k < c.drones.len() implies ((#[trigger] fd(k) is None) <==> drone_ok(c, k)) by {
        lemma_drone_flaw(c, k);
    }
    let fc = |k: int| edge_flaw(c.clients[k], d, true);
    lemma_first_some_none_iff(c.clients.len() as int, fc, 0);
    assert forall|k: int| 0 <= k < c.clients.len() implies ((#[trigger] fc(k) is None) <==> edge_ok(c.clients[k], d, true)) by {
        lemma_edge_flaw(c.clients[k], d, true);
    }
    let fs = |k: int| edge_flaw(c.servers[k], d, false);
    lemma_first_some_none_iff(c.servers.len() as int, fs, 0);
    assert forall|k: int| 0 <= k < c.servers.len() implies ((#[trigger] fs(k) is None) <==> edge_ok(c.servers[k], d, false)) by {
        lemma_edge_flaw(c.servers[k], d, false);
    }
    lemma_direction_flaws(c);
    if first_flaw(c) is None {
        assert forall|k: int| 0 <= k < c.drones.len() implies #[trigger] drone_ok(c, k) by {
            assert(fd(k) is None);
        }
        assert forall|k: int| 0 <= k < c.clients.len() implies #[trigger] edge_ok(c.clients[k], ids(c.drones), true) by {
            assert(fc(k) is None);
        }
        assert forall|k: int| 0 <= k < c.servers.len() implies #[trigger] edge_ok(c.servers[k], ids(c.drones), false) by {
            assert(fs(k) is None);
        }
    }
    if well_formed(c) {
        assert forall|k: int| 0 <= k < c.drones.len() implies #[trigger] fd(k) is None by {
            assert(drone_ok(c, k));
        }
        assert forall|k: int| 0 <= k < c.clients.len() implies #[trigger] fc(k) is None by {
            assert(edge_ok(c.clients[k], ids(c.drones), true));
        }
        assert forall|k: int| 0 <= k < c.servers.len() implies #[trigger] fs(k) is None by {
            assert(edge_ok(c.servers[k], ids(c.drones), false));
        }
    }
}

} // verus!

verus! {

/// Law of neighbour counts: a client or server that lists only drones, none
/// twice, passes its own check exactly when it lists one or two drones (a
/// client) or at least two drones (a server).
pub proof fn law_drone_counts(n: (NodeId, Seq<NodeId>), drone_ids: Seq<NodeId>)
    requires
        forall|j: int| 0 <= j < n.1.len() ==> drone_ids.contains(#[trigger] n.1[j]),
        n.1.no_duplicates(),
    ensures
        (edge_flaw(n, drone_ids, true) is None) <==> (n.1.len() == 1 || n.1.len() == 2),
        (edge_flaw(n, drone_ids, false) is None) <==> n.1.len() >= 2,
        n.1.len() == 0 || n.1.len() > 2 ==> edge_flaw(n, drone_ids, true) == Some(ConfigError::ClientDroneCount(n.0)),
        n.1.len() < 2 ==> edge_flaw(n, drone_ids, false) == Some(ConfigError::ServerDroneCount(n.0)),
{
    lemma_edge_flaw(n, drone_ids, true);
    lemma_edge_flaw(n, drone_ids, false);
    lemma_no_earlier_copy(n.1);
    let f = |j: int| edge_link_flaw(n, drone_ids, true, j);
    let g = |j: int| edge_link_flaw(n, drone_ids, false, j);
    assert forall|j: int| 0 <= j < n.1.len() implies #[trigger] f(j) is None by {
        assert(!n.1.subrange(0, j).contains(n.1[j]));
    }
    assert forall|j: int| 0 <= j < n.1.len() implies #[trigger] g(j) is None by {
        assert(!n.1.subrange(0, j).contains(n.1[j]));
    }
    lemma_first_some_none(n.1.len() as int, f, 0);
    lemma_first_some_none(n.1.len() as int, g, 0);
}

} // verus!
