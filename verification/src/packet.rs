//! Packets exchanged by the nodes of the network, with source routing.
use vstd::prelude::*;

verus! {

/// Identifier of a node (drone, client or server) of the network.
pub type NodeId = u8;

/// Number of payload bytes carried by one message fragment.
pub const FRAGMENT_DSIZE: usize = 128;

/// The kind of a node, as recorded in the path trace of a flood.
#[derive(Clone, Copy, Debug, PartialEq, Eq, Structural)]
pub enum NodeType {
    Client,
    Drone,
    Server,
}

/// Why a packet could not be delivered.
#[derive(Clone, Copy, Debug, PartialEq, Eq, Structural)]
pub enum NackType {
    ErrorInRouting(NodeId),
    DestinationIsDrone,
    Dropped,
    UnexpectedRecipient(NodeId),
}

#[derive(Clone, Copy, Debug, PartialEq, Eq, Structural)]
pub struct Nack {
    pub fragment_index: u64,
    pub nack_type: NackType,
}

#[derive(Clone, Copy, Debug, PartialEq, Eq, Structural)]
pub struct Ack {
    pub fragment_index: u64,
}

/// One piece of a fragmented message: `data` always holds `FRAGMENT_DSIZE`
/// bytes, of which the first `length` belong to the message.
#[derive(Clone, Copy, Debug, PartialEq, Eq)]
pub struct Fragment {
    pub fragment_index: u64,
    pub total_n_fragments: u64,
    pub length: u8,
    pub data: [u8; 128],
}

#[derive(Clone, Debug, PartialEq, Eq)]
pub struct FloodRequest {
    pub flood_id: u64,
    pub initiator_id: NodeId,
    pub path_trace: Vec<(NodeId, NodeType)>,
}

#[derive(Clone, Debug, PartialEq, Eq)]
pub struct FloodResponse {
    pub flood_id: u64,
    pub path_trace: Vec<(NodeId, NodeType)>,
}

#[derive(Clone, Debug, PartialEq, Eq)]
pub enum PacketType {
    MsgFragment(Fragment),
    Ack(Ack),
    Nack(Nack),
    FloodRequest(FloodRequest),
    FloodResponse(FloodResponse),
}

/// The route of a packet: the whole list of hops and the position of the
/// node that currently holds it.
#[derive(Clone, Debug, PartialEq, Eq)]
pub struct SourceRoutingHeader {
    pub hop_index: usize,
    pub hops: Vec<NodeId>,
}

#[derive(Clone, Debug, PartialEq, Eq)]
pub struct Packet {
    pub pack_type: PacketType,
    pub routing_header: SourceRoutingHeader,
    pub session_id: u64,
}

/// Mathematical model of a routing header.
pub struct RouteView {
    pub hop_index: usize,
    pub hops: Seq<NodeId>,
}

/// Mathematical model of a packet's payload.
pub enum PacketTypeView {
    MsgFragment(Fragment),
    Ack(Ack),
    Nack(Nack),
    FloodRequest { flood_id: u64, initiator_id: NodeId, path_trace: Seq<(NodeId, NodeType)> },
    FloodResponse { flood_id: u64, path_trace: Seq<(NodeId, NodeType)> },
}

/// Mathematical model of a packet.
pub struct PacketView {
    pub pack_type: PacketTypeView,
    pub route: RouteView,
    pub session_id: u64,
}

impl View for SourceRoutingHeader {
    type V = RouteView;

    open spec fn view(&self) -> RouteView {
        RouteView { hop_index: self.hop_index, hops: self.hops@ }
    }
}

impl View for PacketType {
    type V = PacketTypeView;

    open spec fn view(&self) -> PacketTypeView {
        match self {
            PacketType::MsgFragment(f) => PacketTypeView::MsgFragment(*f),
            PacketType::Ack(a) => PacketTypeView::Ack(*a),
            PacketType::Nack(n) => PacketTypeView::Nack(*n),
            PacketType::FloodRequest(r) => PacketTypeView::FloodRequest {
                flood_id: r.flood_id,
                initiator_id: r.initiator_id,
                path_trace: r.path_trace@,
            },
            PacketType::FloodResponse(r) => PacketTypeView::FloodResponse {
                flood_id: r.flood_id,
                path_trace: r.path_trace@,
            },
        }
    }
}

impl View for Packet {
    type V = PacketView;

    open spec fn view(&self) -> PacketView {
        PacketView {
            pack_type: self.pack_type@,
            route: self.routing_header@,
            session_id: self.session_id,
        }
    }
}

/// The node ids of a path trace, in order.
pub open spec fn trace_ids(trace: Seq<(NodeId, NodeType)>) -> Seq<NodeId> {
    trace.map_values(|e: (NodeId, NodeType)| e.0)
}

/// A copy of a sequence of bytes.
pub fn copy_ids(v: &Vec<NodeId>) -> (r: Vec<NodeId>)
    ensures
        r@ == v@,
{
    v.clone()
}

/// A copy of a path trace.
pub fn copy_trace(v: &Vec<(NodeId, NodeType)>) -> (r: Vec<(NodeId, NodeType)>)
    ensures
        r@ == v@,
{
    let mut r: Vec<(NodeId, NodeType)> = Vec::new();
    let mut i: usize = 0;
    while i < v.len()
        invariant
            i <= v.len(),
            r@ == v@.subrange(0, i as int),
        decreases v.len() - i,
    {
        let e = v[i];
        r.push(e);
        i = i + 1;
        proof {
            assert(r@ =~= v@.subrange(0, i as int));
        }
    }
    proof {
        assert(r@ =~= v@);
    }
    r
}

/// The ids of a path trace, in order.
pub fn ids_of_trace(v: &Vec<(NodeId, NodeType)>) -> (r: Vec<NodeId>)
    ensures
        r@ == trace_ids(v@),
{
    let mut r: Vec<NodeId> = Vec::new();
    let mut i: usize = 0;
    while i < v.len()
        invariant
            i <= v.len(),
            r@ == trace_ids(v@.subrange(0, i as int)),
        decreases v.len() - i,
    {
        let e = v[i];
        r.push(e.0);
        i = i + 1;
        proof {
            assert(trace_ids(v@.subrange(0, i as int)) =~= trace_ids(
                v@.subrange(0, i - 1),
            ).push(v@[i - 1].0));
        }
    }
    proof {
        assert(v@.subrange(0, v@.len() as int) =~= v@);
    }
    r
}

/// A reversed copy of a list of ids.
pub fn reversed_ids(v: &Vec<NodeId>) -> (r: Vec<NodeId>)
    ensures
        r@ == v@.reverse(),
{
    let mut r: Vec<NodeId> = Vec::new();
    let mut i: usize = v.len();
    while i > 0
        invariant
            i <= v.len(),
            r@ == v@.subrange(i as int, v@.len() as int).reverse(),
        decreases i,
    {
        i = i - 1;
        r.push(v[i]);
        proof {
            assert(r@ =~= v@.subrange(i as int, v@.len() as int).reverse());
        }
    }
    proof {
        assert(v@.subrange(0, v@.len() as int) =~= v@);
    }
    r
}

impl SourceRoutingHeader {
    pub fn new(hops: Vec<NodeId>, hop_index: usize) -> (r: Self)
        ensures
            r.hops@ == hops@,
            r.hop_index == hop_index,
    {
        SourceRoutingHeader { hop_index, hops }
    }

    /// The node that should currently hold the packet, if the index is in range.
    pub fn current_hop(&self) -> (r: Option<NodeId>)
        ensures
            r == (if self.hop_index < self.hops@.len() {
                Some(self.hops@[self.hop_index as int])
            } else {
                None::<NodeId>
            }),
    {
        if self.hop_index < self.hops.len() {
            Some(self.hops[self.hop_index])
        } else {
            None
        }
    }

    pub fn increase_hop_index(&mut self)
        requires
            old(self).hop_index < usize::MAX,
        ensures
            final(self).hop_index == old(self).hop_index + 1,
            final(self).hops@ == old(self).hops@,
    {
        self.hop_index = self.hop_index + 1;
    }

    /// The same route walked backwards, starting again from its first hop.
    pub fn get_reversed(&self) -> (r: Self)
        ensures
            r.hops@ == self.hops@.reverse(),
            r.hop_index == 0,
    {
        SourceRoutingHeader { hop_index: 0, hops: reversed_ids(&self.hops) }
    }
}

impl Packet {
    pub fn new_fragment(routing_header: SourceRoutingHeader, session_id: u64, fragment: Fragment) -> (r: Packet)
        ensures
            r@ == (PacketView {
                pack_type: PacketTypeView::MsgFragment(fragment),
                route: routing_header@,
                session_id,
            }),
    {
        Packet { pack_type: PacketType::MsgFragment(fragment), routing_header, session_id }
    }

    pub fn new_ack(routing_header: SourceRoutingHeader, session_id: u64, fragment_index: u64) -> (r: Packet)
        ensures
            r@ == (PacketView {
                pack_type: PacketTypeView::Ack(Ack { fragment_index }),
                route: routing_header@,
                session_id,
            }),
    {
        Packet { pack_type: PacketType::Ack(Ack { fragment_index }), routing_header, session_id }
    }

    pub fn new_nack(routing_header: SourceRoutingHeader, session_id: u64, nack: Nack) -> (r: Packet)
        ensures
            r@ == (PacketView {
                pack_type: PacketTypeView::Nack(nack),
                route: routing_header@,
                session_id,
            }),
    {
        Packet { pack_type: PacketType::Nack(nack), routing_header, session_id }
    }

    pub fn new_flood_request(routing_header: SourceRoutingHeader, session_id: u64, flood_request: FloodRequest) -> (r: Packet)
        ensures
            r@ == (PacketView {
                pack_type: PacketType::FloodRequest(flood_request)@,
                route: routing_header@,
                session_id,
            }),
    {
        Packet { pack_type: PacketType::FloodRequest(flood_request), routing_header, session_id }
    }

    pub fn new_flood_response(routing_header: SourceRoutingHeader, session_id: u64, flood_response: FloodResponse) -> (r: Packet)
        ensures
            r@ == (PacketView {
                pack_type: PacketType::FloodResponse(flood_response)@,
                route: routing_header@,
                session_id,
            }),
    {
        Packet { pack_type: PacketType::FloodResponse(flood_response), routing_header, session_id }
    }
}

impl FloodRequest {
    /// Records that the request went through `node_id`.
    pub fn increment(&mut self, node_id: NodeId, node_type: NodeType)
        ensures
            final(self).path_trace@ == old(self).path_trace@.push((node_id, node_type)),
            final(self).flood_id == old(self).flood_id,
            final(self).initiator_id == old(self).initiator_id,
    {
        self.path_trace.push((node_id, node_type));
    }

    /// The response that travels back along the path trace, starting from
    /// its last node (route index 0).
    pub fn generate_response(&self, session_id: u64) -> (r: Packet)
        ensures
            r@ == (PacketView {
                pack_type: PacketTypeView::FloodResponse {
                    flood_id: self.flood_id,
                    path_trace: self.path_trace@,
                },
                route: RouteView { hop_index: 0, hops: trace_ids(self.path_trace@).reverse() },
                session_id,
            }),
    {
        let ids = ids_of_trace(&self.path_trace);
        let route = reversed_ids(&ids);
        Packet::new_flood_response(
            SourceRoutingHeader::new(route, 0),
            session_id,
            FloodResponse { flood_id: self.flood_id, path_trace: copy_trace(&self.path_trace) },
        )
    }
}

} // verus!
