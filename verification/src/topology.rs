//! The paths a client or server knows to the nodes it talks to, learnt
//! from flood responses.
use vstd::prelude::*;
use std::collections::HashMap;
use crate::packet::{NodeId, NodeType, FloodResponse, trace_ids, ids_of_trace, copy_ids};

verus! {

broadcast use vstd::std_specs::hash::group_hash_axioms;

/// For each known node, the path to it (the path starts at the owner).
pub struct Topology {
    paths: HashMap<NodeId, Vec<NodeId>>,
}

impl View for Topology {
    type V = Map<NodeId, Seq<NodeId>>;

    closed spec fn view(&self) -> Map<NodeId, Seq<NodeId>> {
        self.paths@.map_values(|p: Vec<NodeId>| p@)
    }
}

/// Whether a node of type `t` belongs in the topology of a client
/// (`is_client`) or of a server: clients keep servers, servers keep clients.
pub open spec fn kept_type(t: NodeType, is_client: bool) -> bool {
    if is_client {
        t == NodeType::Server
    } else {
        t == NodeType::Client
    }
}

/// The topology after the flood response with path trace `trace`
/// (non-empty): the node that answered gets the path of the trace if it is
/// new and of a kept type, or if the trace is shorter than its known path.
pub open spec fn updated_topology(m: Map<NodeId, Seq<NodeId>>, trace: Seq<(NodeId, NodeType)>, is_client: bool) -> Map<NodeId, Seq<NodeId>> {
    let path = trace_ids(trace);
    let target = trace.last().0;
    if !m.contains_key(target) {
        if kept_type(trace.last().1, is_client) {
            m.insert(target, path)
        } else {
            m
        }
    } else if trace.len() < m[target].len() {
        m.insert(target, path)
    } else {
        m
    }
}

/// Why no path could be computed.
pub open spec fn path_not_found_text() -> Seq<char> {
    "Path not found"@
}

impl Topology {
    pub fn new() -> (r: Self)
        ensures
            r@ == Map::<NodeId, Seq<NodeId>>::empty(),
    {
        let r = Topology { paths: HashMap::new() };
        proof {
            assert(r@ =~= Map::<NodeId, Seq<NodeId>>::empty());
        }
        r
    }

    /// Forgets every path.
    pub fn clear(&mut self)
        ensures
            final(self)@ == Map::<NodeId, Seq<NodeId>>::empty(),
    {
        self.paths.clear();
        proof {
            assert(self@ =~= Map::<NodeId, Seq<NodeId>>::empty());
        }
    }

    /// The known path to `target`, if any.
    pub fn path_to(&self, target: NodeId) -> (r: Option<Vec<NodeId>>)
        ensures
            match r {
                Some(p) => self@.contains_key(target) && p@ == self@[target],
                None => !self@.contains_key(target),
            },
    {
        match self.paths.get(&target) {
            Some(p) => Some(copy_ids(p)),
            None => None,
        }
    }

    /// Takes in the path trace of a flood response (see `updated_topology`).
    pub fn update_with_flood_response(&mut self, flood_response: &FloodResponse, is_client: bool)
        requires
            flood_response.path_trace@.len() > 0,
        ensures
            final(self)@ == updated_topology(old(self)@, flood_response.path_trace@, is_client),
    {
        let new_path = ids_of_trace(&flood_response.path_trace);
        let last = flood_response.path_trace.len() - 1;
        let (target, node_type) = flood_response.path_trace[last];
        let ghost m0 = self@;
        let replace = match self.paths.get(&target) {
            None => if is_client {
                node_type == NodeType::Server
            } else {
                node_type == NodeType::Client
            },
            Some(existing) => flood_response.path_trace.len() < existing.len(),
        };
        if replace {
            self.paths.insert(target, new_path);
            proof {
                assert(self@ =~= m0.insert(target, trace_ids(flood_response.path_trace@)));
            }
        }
    }

    /// The path to `target`, or the error text "Path not found".
    pub fn compute_path_to_node(&self, target: NodeId) -> (r: Result<Vec<NodeId>, String>)
        ensures
            match r {
                Ok(p) => self@.contains_key(target) && p@ == self@[target],
                Err(e) => !self@.contains_key(target) && e@ == path_not_found_text(),
            },
    {
        match self.path_to(target) {
            Some(p) => Ok(p),
            None => Err("Path not found".to_string()),
        }
    }
}

} // verus!

verus! {

/// Every known path ends at the node it leads to.
pub open spec fn paths_end_at_their_node(m: Map<NodeId, Seq<NodeId>>) -> bool {
    forall|id: NodeId| #[trigger] m.contains_key(id) ==> m[id].len() > 0 && m[id].last() == id
}

/// Law: taking in a flood response never forgets a node and never makes a
/// known path longer.
pub proof fn law_paths_never_grow(m: Map<NodeId, Seq<NodeId>>, trace: Seq<(NodeId, NodeType)>, is_client: bool, id: NodeId)
    requires
        trace.len() > 0,
        m.contains_key(id),
    ensures
        updated_topology(m, trace, is_client).contains_key(id),
        updated_topology(m, trace, is_client)[id].len() <= m[id].len(),
{
}

/// Law: a node the topology did not know is added only if it is a server
/// (for a client) or a client (for a server).
pub proof fn law_new_nodes_have_kept_type(m: Map<NodeId, Seq<NodeId>>, trace: Seq<(NodeId, NodeType)>, is_client: bool, id: NodeId)
    requires
        trace.len() > 0,
        !m.contains_key(id),
        updated_topology(m, trace, is_client).contains_key(id),
    ensures
        id == trace.last().0,
        kept_type(trace.last().1, is_client),
{
}

/// Law: if every known path ends at its node, that stays true after taking
/// in a flood response.
pub proof fn law_paths_end_at_their_node(m: Map<NodeId, Seq<NodeId>>, trace: Seq<(NodeId, NodeType)>, is_client: bool)
    requires
        trace.len() > 0,
        paths_end_at_their_node(m),
    ensures
        paths_end_at_their_node(updated_topology(m, trace, is_client)),
{
    let u = updated_topology(m, trace, is_client);
    assert forall|id: NodeId| #[trigger] u.contains_key(id) implies u[id].len() > 0 && u[id].last() == id by {
        if id == trace.last().0 && u[id] == trace_ids(trace) {
            assert(trace_ids(trace).last() == trace.last().0);
        } else {
            assert(m.contains_key(id));
        }
    }
}

} // verus!
