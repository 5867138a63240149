//! The drawing of the network: its nodes in drawing order and the lines
//! between them, given by positions in that order.
use vstd::prelude::*;
use crate::packet::{NodeId, copy_ids};
use crate::simulation::NodeKind;

verus! {

/// A node of the drawing.
#[derive(Clone, Copy, Debug, PartialEq, Eq, Structural)]
pub struct GraphNode {
    pub id: NodeId,
    pub kind: NodeKind,
}

/// The colour class of a line: lines touching a client, else lines touching a
/// server, else lines between drones.
#[derive(Clone, Copy, Debug, PartialEq, Eq, Structural)]
pub enum LineKind {
    ClientLine,
    ServerLine,
    DroneLine,
}

/// The nodes `ids`, all of kind `kind`.
pub open spec fn of_kind(ids: Seq<NodeId>, kind: NodeKind) -> Seq<GraphNode> {
    ids.map_values(|id: NodeId| GraphNode { id, kind })
}

/// The drawing order: drones, then clients, then servers.
pub open spec fn drawing_order(drones: Seq<NodeId>, clients: Seq<NodeId>, servers: Seq<NodeId>) -> Seq<GraphNode> {
    of_kind(drones, NodeKind::Drone) + of_kind(clients, NodeKind::Client) + of_kind(servers, NodeKind::Server)
}

/// `i` is the first position of node `x`.
pub open spec fn first_at(nodes: Seq<GraphNode>, x: NodeId, i: int) -> bool {
    &&& 0 <= i < nodes.len()
    &&& nodes[i].id == x
    &&& forall|j: int| 0 <= j < i ==> #[trigger] nodes[j].id != x
}

/// The first position of node `x`, if it is drawn.
pub open spec fn first_pos(nodes: Seq<GraphNode>, x: NodeId) -> Option<int> {
    if exists|i: int| first_at(nodes, x, i) {
        Some(choose|i: int| first_at(nodes, x, i))
    } else {
        None
    }
}

proof fn lemma_first_at_unique(nodes: Seq<GraphNode>, x: NodeId, i: int, j: int)
    requires
        first_at(nodes, x, i),
        first_at(nodes, x, j),
    ensures
        i == j,
{
    if i < j {
        assert(nodes[i].id != x);
    } else if j < i {
        assert(nodes[j].id != x);
    }
}

/// The lines from `src` to each of `nbs` that is drawn, in order; none when
/// `src` itself is not drawn.
pub open spec fn lines_from(nodes: Seq<GraphNode>, src: NodeId, nbs: Seq<NodeId>) -> Seq<(usize, usize)>
    decreases nbs.len(),
{
    if nbs.len() == 0 {
        Seq::empty()
    } else {
        let rest = lines_from(nodes, src, nbs.drop_last());
        match (first_pos(nodes, src), first_pos(nodes, nbs.last())) {
            (Some(a), Some(b)) => rest.push((a as usize, b as usize)),
            _ => rest,
        }
    }
}

/// The lines of all `links` (a node with its neighbours), in order.
pub open spec fn lines_of(nodes: Seq<GraphNode>, links: Seq<(NodeId, Seq<NodeId>)>) -> Seq<(usize, usize)>
    decreases links.len(),
{
    if links.len() == 0 {
        Seq::empty()
    } else {
        lines_of(nodes, links.drop_last()) + lines_from(nodes, links.last().0, links.last().1)
    }
}

/// The model of a list of nodes with their neighbours.
pub open spec fn links_view(links: Seq<(NodeId, Vec<NodeId>)>) -> Seq<(NodeId, Seq<NodeId>)> {
    links.map_values(|l: (NodeId, Vec<NodeId>)| (l.0, l.1@))
}

/// The nodes of `ids`, all of kind `kind`, appended to `out`.
fn push_nodes(out: &mut Vec<GraphNode>, ids: &Vec<NodeId>, kind: NodeKind)
    ensures
        final(out)@ == old(out)@ + of_kind(ids@, kind),
{
    let ghost start = out@;
    let mut i: usize = 0;
    while i < ids.len()
        invariant
            i <= ids.len(),
            out@ == start + of_kind(ids@.subrange(0, i as int), kind),
        decreases ids.len() - i,
    {
        out.push(GraphNode { id: ids[i], kind });
        proof {
            assert(of_kind(ids@.subrange(0, i + 1), kind) =~= of_kind(ids@.subrange(0, i as int), kind).push(
                GraphNode { id: ids@[i as int], kind },
            ));
        }
        i = i + 1;
    }
    proof {
        assert(ids@.subrange(0, ids@.len() as int) =~= ids@);
    }
}

/// The nodes of the drawing: drones, then clients, then servers.
pub fn drawing_nodes(drones: &Vec<NodeId>, clients: &Vec<NodeId>, servers: &Vec<NodeId>) -> (r: Vec<GraphNode>)
    ensures
        r@ == drawing_order(drones@, clients@, servers@),
{
    let mut r: Vec<GraphNode> = Vec::new();
    push_nodes(&mut r, drones, NodeKind::Drone);
    push_nodes(&mut r, clients, NodeKind::Client);
    push_nodes(&mut r, servers, NodeKind::Server);
    proof {
        assert(Seq::<GraphNode>::empty() + of_kind(drones@, NodeKind::Drone) =~= of_kind(drones@, NodeKind::Drone));
    }
    r
}

/// The first position of node `x` in `nodes`, if it is there.
pub fn position(nodes: &Vec<GraphNode>, x: NodeId) -> (r: Option<usize>)
    ensures
        match r {
            Some(i) => first_pos(nodes@, x) == Some(i as int),
            None => first_pos(nodes@, x) is None,
        },
{
    let mut i: usize = 0;
    while i < nodes.len()
        invariant
            i <= nodes.len(),
            forall|j: int| 0 <= j < i ==> #[trigger] nodes@[j].id != x,
        decreases nodes.len() - i,
    {
        if nodes[i].id == x {
            proof {
                assert(first_at(nodes@, x, i as int));
                lemma_first_at_unique(nodes@, x, i as int, choose|k: int| first_at(nodes@, x, k));
            }
            return Some(i);
        }
        i = i + 1;
    }
    proof {
        assert forall|k: int| !first_at(nodes@, x, k) by {
            if first_at(nodes@, x, k) {
                assert(nodes@[k].id != x);
            }
        }
    }
    None
}

/// Appends the lines from `src` to each drawn node of `nbs`.
fn push_lines_from(out: &mut Vec<(usize, usize)>, nodes: &Vec<GraphNode>, src: NodeId, nbs: &Vec<NodeId>)
    ensures
        final(out)@ == old(out)@ + lines_from(nodes@, src, nbs@),
{
    let ghost start = out@;
    let a = position(nodes, src);
    let mut i: usize = 0;
    while i < nbs.len()
        invariant
            i <= nbs.len(),
            a matches Some(x) ==> first_pos(nodes@, src) == Some(x as int),
            a is None ==> first_pos(nodes@, src) is None,
            out@ == start + lines_from(nodes@, src, nbs@.subrange(0, i as int)),
        decreases nbs.len() - i,
    {
        let b = position(nodes, nbs[i]);
        proof {
            let s = nbs@.subrange(0, i + 1);
            assert(s.drop_last() =~= nbs@.subrange(0, i as int));
            assert(s.last() == nbs@[i as int]);
        }
        match (a, b) {
            (Some(x), Some(y)) => {
                out.push((x, y));
            },
            _ => {},
        }
        i = i + 1;
    }
    proof {
        assert(nbs@.subrange(0, nbs@.len() as int) =~= nbs@);
    }
}

/// The lines of the drawing: from each node of `links` to each of its
/// neighbours that is drawn, by first positions in `nodes`.
pub fn connections(nodes: &Vec<GraphNode>, links: &Vec<(NodeId, Vec<NodeId>)>) -> (r: Vec<(usize, usize)>)
    ensures
        r@ == lines_of(nodes@, links_view(links@)),
{
    let mut r: Vec<(usize, usize)> = Vec::new();
    let mut i: usize = 0;
    while i < links.len()
        invariant
            i <= links.len(),
            r@ == lines_of(nodes@, links_view(links@.subrange(0, i as int))),
        decreases links.len() - i,
    {
        push_lines_from(&mut r, nodes, links[i].0, &links[i].1);
        proof {
            let s = links_view(links@.subrange(0, i + 1));
            assert(s.drop_last() =~= links_view(links@.subrange(0, i as int)));
            assert(s.last() == (links@[i as int].0, links@[i as int].1@));
        }
        i = i + 1;
    }
    proof {
        assert(links@.subrange(0, links@.len() as int) =~= links@);
    }
    r
}

/// The colour class of the line between positions `a` and `b`.
pub open spec fn line_kind(nodes: Seq<GraphNode>, a: int, b: int) -> LineKind {
    if nodes[a].kind == NodeKind::Client || nodes[b].kind == NodeKind::Client {
        LineKind::ClientLine
    } else if nodes[a].kind == NodeKind::Server || nodes[b].kind == NodeKind::Server {
        LineKind::ServerLine
    } else {
        LineKind::DroneLine
    }
}

/// The colour class of the line between positions `a` and `b`.
pub fn line_kind_of(nodes: &Vec<GraphNode>, a: usize, b: usize) -> (r: LineKind)
    requires
        a < nodes.len(),
        b < nodes.len(),
    ensures
        r == line_kind(nodes@, a as int, b as int),
{
    let x = nodes[a].kind;
    let y = nodes[b].kind;
    if x == NodeKind::Client || y == NodeKind::Client {
        LineKind::ClientLine
    } else if x == NodeKind::Server || y == NodeKind::Server {
        LineKind::ServerLine
    } else {
        LineKind::DroneLine
    }
}

/// The drawing of a network: its nodes (drones, then clients, then servers)
/// and the lines from each drone and each client to its drawn neighbours.
pub fn update_topology(
    drones: &Vec<(NodeId, Vec<NodeId>)>,
    clients: &Vec<(NodeId, Vec<NodeId>)>,
    servers: &Vec<NodeId>,
) -> (r: (Vec<GraphNode>, Vec<(usize, usize)>))
    ensures
        r.0@ == drawing_order(
            drones@.map_values(|l: (NodeId, Vec<NodeId>)| l.0),
            clients@.map_values(|l: (NodeId, Vec<NodeId>)| l.0),
            servers@,
        ),
        r.1@ == lines_of(r.0@, links_view(drones@) + links_view(clients@)),
{
    let mut drone_ids: Vec<NodeId> = Vec::new();
    let mut client_ids: Vec<NodeId> = Vec::new();
    let mut all: Vec<(NodeId, Vec<NodeId>)> = Vec::new();
    let mut i: usize = 0;
    while i < drones.len()
        invariant
            i <= drones.len(),
            drone_ids@ == drones@.subrange(0, i as int).map_values(|l: (NodeId, Vec<NodeId>)| l.0),
            links_view(all@) == links_view(drones@.subrange(0, i as int)),
        decreases drones.len() - i,
    {
        drone_ids.push(drones[i].0);
        let ghost prev = all@;
        all.push((drones[i].0, copy_ids(&drones[i].1)));
        proof {
            assert(links_view(all@) =~= links_view(prev).push((drones@[i as int].0, drones@[i as int].1@)));
            assert(drones@.subrange(0, i + 1) =~= drones@.subrange(0, i as int).push(drones@[i as int]));
            assert(drone_ids@ =~= drones@.subrange(0, i + 1).map_values(|l: (NodeId, Vec<NodeId>)| l.0));
            assert(links_view(all@) =~= links_view(drones@.subrange(0, i + 1)));
        }
        i = i + 1;
    }
    let mut j: usize = 0;
    while j < clients.len()
        invariant
            j <= clients.len(),
            client_ids@ == clients@.subrange(0, j as int).map_values(|l: (NodeId, Vec<NodeId>)| l.0),
            links_view(all@) == links_view(drones@) + links_view(clients@.subrange(0, j as int)),
        decreases clients.len() - j,
    {
        client_ids.push(clients[j].0);
        let ghost prev = all@;
        all.push((clients[j].0, copy_ids(&clients[j].1)));
        proof {
            assert(links_view(all@) =~= links_view(prev).push((clients@[j as int].0, clients@[j as int].1@)));
            assert(clients@.subrange(0, j + 1) =~= clients@.subrange(0, j as int).push(clients@[j as int]));
            assert(client_ids@ =~= clients@.subrange(0, j + 1).map_values(|l: (NodeId, Vec<NodeId>)| l.0));
            assert(links_view(all@) =~= links_view(drones@) + links_view(clients@.subrange(0, j + 1)));
        }
        j = j + 1;
    }
    proof {
        assert(drones@.subrange(0, drones@.len() as int) =~= drones@);
        assert(clients@.subrange(0, clients@.len() as int) =~= clients@);
    }
    let nodes = drawing_nodes(&drone_ids, &client_ids, servers);
    let lines = connections(&nodes, &all);
    (nodes, lines)
}

} // verus!
