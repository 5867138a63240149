//! What clients and servers have in common: starting a flood, answering
//! floods, acknowledging fragments and sending a message in fragments.
use vstd::prelude::*;
use crate::packet::{
    NodeId, NodeType, FloodRequest, Packet, PacketType, SourceRoutingHeader, PacketView,
    PacketTypeView, RouteView, trace_ids, copy_trace,
};
use crate::topology::Topology;
use crate::fragmentation::{fragment_message, fragment_count, is_fragment_of};

verus! {

/// The flood request a node of type `t` sends to its neighbour `drone` to
/// start flood `flood_id`.
pub open spec fn flood_start_view(id: NodeId, t: NodeType, drone: NodeId, flood_id: u64) -> PacketView {
    PacketView {
        pack_type: PacketTypeView::FloodRequest { flood_id, initiator_id: id, path_trace: seq![(id, t)] },
        route: RouteView { hop_index: 1, hops: seq![id, drone] },
        session_id: flood_id,
    }
}

/// The flood requests that start flood `flood_id`, one per connected drone,
/// in the order of `drones`, each paired with the drone it goes to.
pub fn flood_start_packets(id: NodeId, t: NodeType, drones: &Vec<NodeId>, flood_id: u64) -> (r: Vec<(NodeId, Packet)>)
    ensures
        r@.len() == drones@.len(),
        forall|i: int| 0 <= i < r@.len() ==> #[trigger] r@[i].0 == drones@[i] && r@[i].1@ == flood_start_view(id, t, drones@[i], flood_id),
{
    let mut r: Vec<(NodeId, Packet)> = Vec::new();
    let mut i: usize = 0;
    while i < drones.len()
        invariant
            i <= drones.len(),
            r@.len() == i,
            forall|k: int| 0 <= k < i ==> #[trigger] r@[k].0 == drones@[k] && r@[k].1@ == flood_start_view(id, t, drones@[k], flood_id),
        decreases drones.len() - i,
    {
        let drone = drones[i];
        let mut hops: Vec<NodeId> = Vec::new();
        hops.push(id);
        hops.push(drone);
        let mut trace: Vec<(NodeId, NodeType)> = Vec::new();
        trace.push((id, t));
        let p = Packet::new_flood_request(
            SourceRoutingHeader { hop_index: 1, hops },
            flood_id,
            FloodRequest { flood_id, initiator_id: id, path_trace: trace },
        );
        proof {
            assert(p@.route.hops =~= seq![id, drone]);
            assert(trace@ =~= seq![(id, t)]);
            assert(p@ == flood_start_view(id, t, drone, flood_id));
        }
        r.push((drone, p));
        i = i + 1;
    }
    r
}

/// The answer of a client or server (of type `t`) to flood request `req`:
/// the trace gets this node, and the response walks the trace back,
/// its hop index already past this node.
pub open spec fn flood_answer_view(req: FloodRequest, session_id: u64, id: NodeId, t: NodeType) -> PacketView {
    let trace = req.path_trace@.push((id, t));
    PacketView {
        pack_type: PacketTypeView::FloodResponse { flood_id: req.flood_id, path_trace: trace },
        route: RouteView { hop_index: 1, hops: trace_ids(trace).reverse() },
        session_id,
    }
}

pub fn flood_answer(req: &FloodRequest, session_id: u64, id: NodeId, t: NodeType) -> (r: Packet)
    ensures
        r@ == flood_answer_view(*req, session_id, id, t),
{
    let mut request = FloodRequest { flood_id: req.flood_id, initiator_id: req.initiator_id, path_trace: copy_trace(&req.path_trace) };
    request.increment(id, t);
    let mut response = request.generate_response(session_id);
    response.routing_header.increase_hop_index();
    response
}

/// The ack of a received fragment: it walks the route back, its hop index
/// already past this node.
pub open spec fn ack_view(p: PacketView, fragment_index: u64) -> PacketView {
    PacketView {
        pack_type: PacketTypeView::Ack(crate::packet::Ack { fragment_index }),
        route: RouteView { hop_index: 1, hops: p.route.hops.reverse() },
        session_id: p.session_id,
    }
}

pub fn ack_for_fragment(packet: &Packet, fragment_index: u64) -> (r: Packet)
    ensures
        r@ == ack_view(packet@, fragment_index),
{
    let mut ack = Packet::new_ack(packet.routing_header.get_reversed(), packet.session_id, fragment_index);
    ack.routing_header.increase_hop_index();
    ack
}

/// A message to send to `target`.
pub struct Outgoing<M> {
    pub target: NodeId,
    pub message: crate::message::Message<M>,
}

/// What a client or server does with a packet it received.
pub enum NodeReaction {
    /// Hands the fragment to its assembler and, if that works, sends `ack`.
    Assemble { ack: Packet },
    /// Sends `reply`.
    Reply(Packet),
    /// Nothing more to send.
    Nothing,
}

/// The packet a node reacts with, by the kind of the packet received:
/// fragments are acknowledged, flood requests answered; the rest asks for
/// no packet.
pub open spec fn reaction_spec(r: NodeReaction, p: PacketView, id: NodeId, t: NodeType) -> bool {
    match p.pack_type {
        PacketTypeView::MsgFragment(f) => r matches NodeReaction::Assemble { ack } && ack@ == ack_view(p, f.fragment_index),
        PacketTypeView::FloodRequest { flood_id, initiator_id, path_trace } => r matches NodeReaction::Reply(reply) && reply@ == PacketView {
            pack_type: PacketTypeView::FloodResponse { flood_id, path_trace: path_trace.push((id, t)) },
            route: RouteView { hop_index: 1, hops: trace_ids(path_trace.push((id, t))).reverse() },
            session_id: p.session_id,
        },
        _ => r is Nothing,
    }
}

/// The reaction of a client or server with id `id` and type `t` to a packet
/// other than a flood response (flood responses update the topology).
pub fn react_to_packet(packet: &Packet, id: NodeId, t: NodeType) -> (r: NodeReaction)
    ensures
        reaction_spec(r, packet@, id, t),
{
    match &packet.pack_type {
        PacketType::MsgFragment(f) => NodeReaction::Assemble { ack: ack_for_fragment(packet, f.fragment_index) },
        PacketType::FloodRequest(req) => NodeReaction::Reply(flood_answer(req, packet.session_id, id, t)),
        _ => NodeReaction::Nothing,
    }
}

/// The paths of a topology lead somewhere: a known path has a node after
/// its owner.
pub open spec fn paths_have_first_hop(m: Map<NodeId, Seq<NodeId>>, target: NodeId) -> bool {
    m.contains_key(target) ==> m[target].len() >= 2
}

/// The fragments that carry `bytes` to `target`, routed on the known path to
/// it; the error text when no path is known.
pub fn plan_message(topology: &Topology, target: NodeId, session_id: u64, bytes: &Vec<u8>) -> (r: Result<Vec<Packet>, String>)
    requires
        bytes.len() + 127 <= usize::MAX,
        bytes.len() > 0 ==> paths_have_first_hop(topology@, target),
    ensures
        match r {
            Ok(packets) => {
                &&& topology@.contains_key(target)
                &&& packets@.len() == fragment_count(bytes@.len() as int)
                &&& forall|i: int|
                    0 <= i < packets@.len() ==> {
                        &&& #[trigger] packets@[i].pack_type matches PacketType::MsgFragment(f) && is_fragment_of(f, bytes@, i)
                        &&& packets@[i].routing_header.hop_index == 1
                        &&& packets@[i].routing_header.hops@ == topology@[target]
                        &&& packets@[i].session_id == session_id
                    }
            },
            Err(e) => !topology@.contains_key(target) && e@ == crate::topology::path_not_found_text(),
        },
{
    match topology.compute_path_to_node(target) {
        Ok(path) => Ok(fragment_message(bytes, &path, session_id)),
        Err(e) => Err(e),
    }
}

/// The decimal digit `d` as a character.
pub open spec fn digit_char(d: int) -> char {
    (d + 48) as char
}

/// The decimal writing of `n`.
pub open spec fn decimal(n: nat) -> Seq<char>
    decreases n,
{
    if n < 10 {
        seq![digit_char(n as int)]
    } else {
        decimal(n / 10) + seq![digit_char((n % 10) as int)]
    }
}

fn digit_str(d: u8) -> (r: &'static str)
    requires
        d < 10,
    ensures
        r@ == seq![digit_char(d as int)],
{
    proof {
        reveal_strlit("0");
        reveal_strlit("1");
        reveal_strlit("2");
        reveal_strlit("3");
        reveal_strlit("4");
        reveal_strlit("5");
        reveal_strlit("6");
        reveal_strlit("7");
        reveal_strlit("8");
        reveal_strlit("9");
    }
    match d {
        0 => "0",
        1 => "1",
        2 => "2",
        3 => "3",
        4 => "4",
        5 => "5",
        6 => "6",
        7 => "7",
        8 => "8",
        _ => "9",
    }
}

/// Appends the decimal writing of `n` to `s`.
pub fn push_decimal(s: &mut String, n: u8)
    ensures
        final(s)@ == old(s)@ + decimal(n as nat),
    decreases n,
{
    if n >= 10 {
        push_decimal(s, n / 10);
    }
    s.append(digit_str(n % 10));
    proof {
        if n >= 10 {
            assert(decimal(n as nat) == decimal((n / 10) as nat) + seq![digit_char((n % 10) as int)]);
        }
    }
}

} // verus!
