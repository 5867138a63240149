//! The routing decisions of a drone: what it sends, to whom, and what it
//! reports to the simulation controller.
use vstd::prelude::*;
use std::collections::HashMap;
use crate::packet::{
    NodeId, NodeType, NackType, Nack, Ack, FloodRequest, FloodResponse, PacketType, Packet,
    SourceRoutingHeader, PacketView, PacketTypeView, RouteView, copy_ids, copy_trace, ids_of_trace,
    trace_ids,
};

verus! {

broadcast use vstd::std_specs::hash::group_hash_axioms;

/// The event reported to the simulation controller after a successful send.
#[derive(Clone, Copy, Debug, PartialEq, Eq, Structural)]
pub enum OnSent {
    /// `PacketSent` with the packet that was sent.
    Sent,
    /// `PacketDropped` with the packet that was sent.
    Dropped,
    /// Nothing is reported.
    Silent,
}

/// What happens when the channel to the next hop refuses the packet.
#[derive(Clone, Copy, Debug, PartialEq, Eq, Structural)]
pub enum OnRefused {
    /// The packet is handed to the simulation controller (`ControllerShortcut`).
    Shortcut,
    /// The drone stops with a panic.
    Abort,
    /// Nothing happens.
    Ignore,
}

/// One packet to send to one neighbour.
pub struct Forward {
    pub next_hop: NodeId,
    pub packet: Packet,
    pub on_sent: OnSent,
    pub on_refused: OnRefused,
}

/// What a drone does with a packet it received.
pub enum DroneAction {
    /// Sends one packet to one neighbour. A neighbour without a channel
    /// stops the drone with a panic.
    Send(Forward),
    /// Sends the same packet to each listed neighbour in turn, stopping with a
    /// panic at the first refusal, and reports `PacketSent` when all went out.
    Broadcast { targets: Vec<NodeId>, packet: Packet },
    /// Does nothing.
    Nothing,
}

pub enum ForwardView {
    Send { next_hop: NodeId, packet: PacketView, on_sent: OnSent, on_refused: OnRefused },
    Broadcast { targets: Seq<NodeId>, packet: PacketView },
    Nothing,
}

impl View for DroneAction {
    type V = ForwardView;

    open spec fn view(&self) -> ForwardView {
        match self {
            DroneAction::Send(f) => ForwardView::Send {
                next_hop: f.next_hop,
                packet: f.packet@,
                on_sent: f.on_sent,
                on_refused: f.on_refused,
            },
            DroneAction::Broadcast { targets, packet } => ForwardView::Broadcast { targets: targets@, packet: packet@ },
            DroneAction::Nothing => ForwardView::Nothing,
        }
    }
}

/// The routing state of a drone: its id, the neighbours it has a channel
/// to, and the floods it has already seen (the initiator of each flood id).
pub struct MyDrone {
    pub id: NodeId,
    neighbors: Vec<NodeId>,
    flood_initiators: HashMap<u64, NodeId>,
}

pub struct DroneView {
    pub id: NodeId,
    pub neighbors: Seq<NodeId>,
    pub flood_initiators: Map<u64, NodeId>,
}

impl View for MyDrone {
    type V = DroneView;

    closed spec fn view(&self) -> DroneView {
        DroneView { id: self.id, neighbors: self.neighbors@, flood_initiators: self.flood_initiators@ }
    }
}

/// The fragment index a nack carries back for a packet of this kind.
pub open spec fn nack_fragment_index(pt: PacketTypeView) -> u64 {
    match pt {
        PacketTypeView::MsgFragment(f) => f.fragment_index,
        PacketTypeView::Nack(n) => n.fragment_index,
        _ => 0,
    }
}

/// The same route, one hop back.
pub open spec fn back_route(p: PacketView) -> RouteView {
    RouteView { hop_index: (p.route.hop_index - 1) as usize, hops: p.route.hops }
}

/// The node before the current one on the route.
pub open spec fn previous_hop(p: PacketView) -> NodeId {
    p.route.hops[p.route.hop_index - 1]
}

/// The node after the current one on the route.
pub open spec fn next_hop(p: PacketView) -> NodeId {
    p.route.hops[p.route.hop_index + 1]
}

/// Sending `pt` one hop back along the route of `p`.
pub open spec fn send_back(p: PacketView, pt: PacketTypeView, on_sent: OnSent, on_refused: OnRefused) -> ForwardView {
    ForwardView::Send {
        next_hop: previous_hop(p),
        packet: PacketView { pack_type: pt, route: back_route(p), session_id: p.session_id },
        on_sent,
        on_refused,
    }
}

/// The nack of type `t` that answers `p`, sent one hop back.
pub open spec fn nack_back(p: PacketView, t: NackType, on_sent: OnSent, on_refused: OnRefused) -> ForwardView {
    send_back(p, PacketTypeView::Nack(Nack { fragment_index: nack_fragment_index(p.pack_type), nack_type: t }), on_sent, on_refused)
}

/// `hops` with every occurrence of `x` taken out, order kept.
pub open spec fn without(hops: Seq<NodeId>, x: NodeId) -> Seq<NodeId> {
    hops.filter(other_than(x))
}

/// The ids other than `x`.
pub open spec fn other_than(x: NodeId) -> spec_fn(NodeId) -> bool {
    |y: NodeId| y != x
}

/// Whether the flood `flood_id` started by `initiator` was already recorded.
pub open spec fn flood_seen(d: DroneView, flood_id: u64, initiator: NodeId) -> bool {
    d.flood_initiators.contains_key(flood_id) && d.flood_initiators[flood_id] == initiator
}

/// The node a flood request came from: the last node of its path trace, or,
/// for an empty trace, the node before the current hop of its route.
pub open spec fn flood_sender(p: PacketView, trace: Seq<(NodeId, NodeType)>) -> NodeId {
    if trace.len() > 0 {
        trace.last().0
    } else {
        previous_hop(p)
    }
}

/// The answer to a flood request already seen: a flood response with the
/// request's path trace, sent to the node the request came from and routed
/// back along the trace (the route is the trace followed by this drone, its
/// hop index on that node).
pub open spec fn seen_flood_answer(d: DroneView, p: PacketView, flood_id: u64, trace: Seq<(NodeId, NodeType)>) -> ForwardView {
    if trace.len() > 0 {
        ForwardView::Send {
            next_hop: trace.last().0,
            packet: PacketView {
                pack_type: PacketTypeView::FloodResponse { flood_id, path_trace: trace },
                route: RouteView { hop_index: (trace.len() - 1) as usize, hops: trace_ids(trace).push(d.id) },
                session_id: p.session_id,
            },
            on_sent: OnSent::Sent,
            on_refused: OnRefused::Shortcut,
        }
    } else {
        send_back(p, PacketTypeView::FloodResponse { flood_id, path_trace: trace }, OnSent::Sent, OnRefused::Shortcut)
    }
}

/// The packets on which a working drone reaches the point of sending
/// without an index out of range or an arithmetic overflow.
pub open spec fn accepts(d: DroneView, p: PacketView, dropped: bool) -> bool {
    let i = p.route.hop_index;
    let n = p.route.hops.len();
    match p.pack_type {
        PacketTypeView::FloodRequest { flood_id, initiator_id, path_trace } => {
            &&& path_trace.len() == 0 ==> 1 <= i <= n
            &&& !flood_seen(d, flood_id, initiator_id) ==> i < usize::MAX
        },
        _ => {
            &&& i < n
            &&& d.id != p.route.hops[i as int] ==> 1 <= i
            &&& d.id == p.route.hops[i as int] ==> {
                &&& i + 1 == n ==> 1 <= i
                &&& i + 1 < n ==> ((!d.neighbors.contains(next_hop(p)) || !(p.pack_type is MsgFragment) || dropped)
                    ==> 1 <= i)
            }
        },
    }
}

/// The drone after it handled packet `p`: a flood request not seen before
/// is recorded (its flood id now maps to its initiator).
pub open spec fn drone_after(d: DroneView, p: PacketView) -> DroneView {
    match p.pack_type {
        PacketTypeView::FloodRequest { flood_id, initiator_id, .. } => if !flood_seen(d, flood_id, initiator_id) {
            DroneView { flood_initiators: d.flood_initiators.insert(flood_id, initiator_id), ..d }
        } else {
            d
        },
        _ => d,
    }
}

/// What a working drone does with packet `p`; `dropped` tells whether the
/// drop draw against its packet drop rate came out (it matters for fragments
/// only).
pub open spec fn drone_plan(d: DroneView, p: PacketView, dropped: bool) -> ForwardView {
    let i = p.route.hop_index;
    match p.pack_type {
        PacketTypeView::FloodRequest { flood_id, initiator_id, path_trace } => if !flood_seen(
            d,
            flood_id,
            initiator_id,
        ) {
            ForwardView::Broadcast {
                targets: without(d.neighbors, flood_sender(p, path_trace)),
                packet: PacketView {
                    pack_type: PacketTypeView::FloodRequest {
                        flood_id,
                        initiator_id,
                        path_trace: path_trace.push((d.id, NodeType::Drone)),
                    },
                    route: RouteView { hop_index: (i + 1) as usize, hops: p.route.hops.push(d.id) },
                    session_id: p.session_id,
                },
            }
        } else {
            seen_flood_answer(d, p, flood_id, path_trace)
        },
        _ => if d.id != p.route.hops[i as int] {
            nack_back(p, NackType::UnexpectedRecipient(d.id), OnSent::Sent, OnRefused::Shortcut)
        } else if i + 1 == p.route.hops.len() {
            nack_back(p, NackType::DestinationIsDrone, OnSent::Sent, OnRefused::Shortcut)
        } else if !d.neighbors.contains(next_hop(p)) {
            nack_back(p, NackType::ErrorInRouting(next_hop(p)), OnSent::Sent, OnRefused::Shortcut)
        } else {
            match p.pack_type {
                PacketTypeView::Nack(n) => nack_back(p, n.nack_type, OnSent::Sent, OnRefused::Shortcut),
                PacketTypeView::Ack(a) => send_back(p, PacketTypeView::Ack(a), OnSent::Sent, OnRefused::Shortcut),
                PacketTypeView::MsgFragment(f) => if dropped {
                    nack_back(p, NackType::Dropped, OnSent::Dropped, OnRefused::Abort)
                } else {
                    ForwardView::Send {
                        next_hop: next_hop(p),
                        packet: PacketView {
                            pack_type: PacketTypeView::MsgFragment(f),
                            route: RouteView { hop_index: (i + 1) as usize, hops: p.route.hops },
                            session_id: p.session_id,
                        },
                        on_sent: OnSent::Sent,
                        on_refused: OnRefused::Abort,
                    }
                },
                PacketTypeView::FloodResponse { flood_id, path_trace } => send_back(
                    p,
                    PacketTypeView::FloodResponse { flood_id, path_trace },
                    OnSent::Sent,
                    OnRefused::Shortcut,
                ),
                _ => ForwardView::Nothing,
            }
        },
    }
}

/// The packets a crashing drone can handle without an index out of range.
pub open spec fn accepts_while_crashing(p: PacketView) -> bool {
    p.pack_type is FloodRequest || 1 <= p.route.hop_index <= p.route.hops.len()
}

/// What a crashing drone does with packet `p`: it loses flood requests,
/// still passes acks, nacks and flood responses back, and answers fragments
/// with an `ErrorInRouting` nack naming itself.
pub open spec fn crashing_plan(d: DroneView, p: PacketView) -> ForwardView {
    match p.pack_type {
        PacketTypeView::FloodRequest { .. } => ForwardView::Nothing,
        PacketTypeView::Ack(a) => send_back(p, PacketTypeView::Ack(a), OnSent::Silent, OnRefused::Shortcut),
        PacketTypeView::Nack(n) => nack_back(p, n.nack_type, OnSent::Silent, OnRefused::Shortcut),
        PacketTypeView::FloodResponse { flood_id, path_trace } => send_back(
            p,
            PacketTypeView::FloodResponse { flood_id, path_trace },
            OnSent::Silent,
            OnRefused::Shortcut,
        ),
        PacketTypeView::MsgFragment(_) => nack_back(p, NackType::ErrorInRouting(d.id), OnSent::Silent, OnRefused::Ignore),
    }
}

/// The packet `p` one hop back along its own route, otherwise unchanged.
pub open spec fn one_hop_back(p: PacketView) -> PacketView {
    PacketView { route: RouteView { hop_index: (p.route.hop_index - 1) as usize, hops: p.route.hops }, ..p }
}

/// Law of return: a working drone that is the current hop of an ack, a nack
/// or a flood response, not its last hop, and has a channel to the next hop,
/// sends that very packet, unchanged but for its hop index one less, to the
/// node before it on the route, and keeps its own state.
pub proof fn law_returns_pass_back_unchanged(d: DroneView, p: PacketView, dropped: bool)
    requires
        p.pack_type is Ack || p.pack_type is Nack || p.pack_type is FloodResponse,
        1 <= p.route.hop_index,
        p.route.hop_index + 1 < p.route.hops.len(),
        p.route.hops[p.route.hop_index as int] == d.id,
        d.neighbors.contains(p.route.hops[p.route.hop_index + 1]),
    ensures
        drone_plan(d, p, dropped) == (ForwardView::Send {
            next_hop: p.route.hops[p.route.hop_index - 1],
            packet: one_hop_back(p),
            on_sent: OnSent::Sent,
            on_refused: OnRefused::Shortcut,
        }),
        drone_after(d, p) == d,
{
    match p.pack_type {
        PacketTypeView::Nack(n) => {
            assert(Nack { fragment_index: n.fragment_index, nack_type: n.nack_type } == n);
        },
        _ => {},
    }
}

/// Law of forwarding: a working drone that is the current hop of a fragment,
/// not its last hop, with a channel to the next hop, sends that very
/// fragment, unchanged but for its hop index one more, to the next hop when
/// the drop draw spares it; when the draw drops it, it sends back, one hop,
/// a `Dropped` nack for the fragment's index on the same route and session.
pub proof fn law_fragments_move_on(d: DroneView, p: PacketView, dropped: bool)
    requires
        p.pack_type is MsgFragment,
        1 <= p.route.hop_index,
        p.route.hop_index + 1 < p.route.hops.len(),
        p.route.hops[p.route.hop_index as int] == d.id,
        d.neighbors.contains(p.route.hops[p.route.hop_index + 1]),
    ensures
        !dropped ==> drone_plan(d, p, dropped) == (ForwardView::Send {
            next_hop: p.route.hops[p.route.hop_index + 1],
            packet: PacketView { route: RouteView { hop_index: (p.route.hop_index + 1) as usize, hops: p.route.hops }, ..p },
            on_sent: OnSent::Sent,
            on_refused: OnRefused::Abort,
        }),
        dropped ==> drone_plan(d, p, dropped) == (ForwardView::Send {
            next_hop: p.route.hops[p.route.hop_index - 1],
            packet: PacketView {
                pack_type: PacketTypeView::Nack(Nack { fragment_index: p.pack_type->MsgFragment_0.fragment_index, nack_type: NackType::Dropped }),
                ..one_hop_back(p)
            },
            on_sent: OnSent::Dropped,
            on_refused: OnRefused::Abort,
        }),
        drone_after(d, p) == d,
{
}

/// Law of return while crashing: a crashing drone sends an ack, a nack or a
/// flood response, unchanged but for its hop index one less, to the node
/// before it on the route.
pub proof fn law_crashing_returns_pass_back_unchanged(d: DroneView, p: PacketView)
    requires
        p.pack_type is Ack || p.pack_type is Nack || p.pack_type is FloodResponse,
        1 <= p.route.hop_index <= p.route.hops.len(),
    ensures
        crashing_plan(d, p) == (ForwardView::Send {
            next_hop: p.route.hops[p.route.hop_index - 1],
            packet: one_hop_back(p),
            on_sent: OnSent::Silent,
            on_refused: OnRefused::Shortcut,
        }),
{
    match p.pack_type {
        PacketTypeView::Nack(n) => {
            assert(Nack { fragment_index: n.fragment_index, nack_type: n.nack_type } == n);
        },
        _ => {},
    }
}

/// The neighbours of `old` after a channel to `id` is added: unchanged if
/// `id` was there, `id` appended otherwise.
pub open spec fn with_neighbor(old: Seq<NodeId>, id: NodeId) -> Seq<NodeId> {
    if old.contains(id) {
        old
    } else {
        old.push(id)
    }
}

impl MyDrone {
    pub fn new(id: NodeId, neighbors: Vec<NodeId>) -> (r: Self)
        ensures
            r@.id == id,
            r@.neighbors == neighbors@,
            r@.flood_initiators == Map::<u64, NodeId>::empty(),
    {
        let r = MyDrone { id, neighbors, flood_initiators: HashMap::new() };
        proof {
            assert(r@.flood_initiators =~= Map::<u64, NodeId>::empty());
        }
        r
    }

    pub fn neighbors(&self) -> (r: &Vec<NodeId>)
        ensures
            r@ == self@.neighbors,
    {
        &self.neighbors
    }

    /// Records the channel to `id` (replacing an earlier one).
    pub fn add_sender(&mut self, id: NodeId)
        ensures
            final(self)@.id == old(self)@.id,
            final(self)@.flood_initiators == old(self)@.flood_initiators,
            final(self)@.neighbors == with_neighbor(old(self)@.neighbors, id),
    {
        if !contains_id(&self.neighbors, id) {
            self.neighbors.push(id);
        }
    }

    /// Forgets the channel to `id`.
    pub fn remove_sender(&mut self, id: NodeId)
        ensures
            final(self)@.id == old(self)@.id,
            final(self)@.flood_initiators == old(self)@.flood_initiators,
            final(self)@.neighbors == without(old(self)@.neighbors, id),
    {
        self.neighbors = remove_id(&self.neighbors, id);
    }

    /// While crashing, a `RemoveSender` command: forgets the channel and
    /// tells whether no channel is left, which ends the crash.
    pub fn remove_sender_while_crashing(&mut self, id: NodeId) -> (finished: bool)
        ensures
            final(self)@.id == old(self)@.id,
            final(self)@.flood_initiators == old(self)@.flood_initiators,
            final(self)@.neighbors == without(old(self)@.neighbors, id),
            finished == (final(self)@.neighbors.len() == 0),
    {
        self.remove_sender(id);
        self.neighbors.len() == 0
    }

    fn flood_seen(&self, flood_id: u64, initiator: NodeId) -> (r: bool)
        ensures
            r == flood_seen(self@, flood_id, initiator),
    {
        match self.flood_initiators.get(&flood_id) {
            Some(x) => *x == initiator,
            None => false,
        }
    }

    /// Whether `accepts` holds: the drone can handle the packet without an
    /// index out of range.
    pub fn can_handle(&self, packet: &Packet, dropped: bool) -> (r: bool)
        ensures
            r == accepts(self@, packet@, dropped),
    {
        let i = packet.routing_header.hop_index;
        let n = packet.routing_header.hops.len();
        match &packet.pack_type {
            PacketType::FloodRequest(fr) => {
                if fr.path_trace.len() == 0 && !(1 <= i && i <= n) {
                    return false;
                }
                if !self.flood_seen(fr.flood_id, fr.initiator_id) {
                    i < usize::MAX
                } else {
                    true
                }
            },
            _ => {
                if i >= n {
                    return false;
                }
                if self.id != packet.routing_header.hops[i] {
                    return 1 <= i;
                }
                if i + 1 == n {
                    return 1 <= i;
                }
                let is_fragment = match &packet.pack_type {
                    PacketType::MsgFragment(_) => true,
                    _ => false,
                };
                if !contains_id(&self.neighbors, packet.routing_header.hops[i + 1]) || !is_fragment || dropped {
                    1 <= i
                } else {
                    true
                }
            },
        }
    }

    /// Handles a packet: a flood request seen for the first time is recorded
    /// and passed on to every neighbour but its sender, one seen before is
    /// answered with a flood response; any other packet is checked to be
    /// meant for this drone, not to end here, and to have a neighbour as next
    /// hop, then passed on as its type requires.
    pub fn handle_packet(&mut self, packet: &Packet, dropped: bool) -> (r: DroneAction)
        requires
            accepts(old(self)@, packet@, dropped),
        ensures
            r@ == drone_plan(old(self)@, packet@, dropped),
            final(self)@ == drone_after(old(self)@, packet@),
    {
        let i = packet.routing_header.hop_index;
        match &packet.pack_type {
            PacketType::FloodRequest(fr) => {
                if !self.flood_seen(fr.flood_id, fr.initiator_id) {
                    let r = self.send_flood_request(packet, fr);
                    self.flood_initiators.insert(fr.flood_id, fr.initiator_id);
                    proof {
                        assert(self@.flood_initiators =~= old(self)@.flood_initiators.insert(fr.flood_id, fr.initiator_id));
                    }
                    r
                } else {
                    self.answer_seen_flood(packet, fr)
                }
            },
            _ => {
                if self.id != packet.routing_header.hops[i] {
                    return DroneAction::Send(
                        self.send_nack(packet, NackType::UnexpectedRecipient(self.id), OnSent::Sent, OnRefused::Shortcut),
                    );
                }
                if i == packet.routing_header.hops.len() - 1 {
                    return DroneAction::Send(
                        self.send_nack(packet, NackType::DestinationIsDrone, OnSent::Sent, OnRefused::Shortcut),
                    );
                }
                let next = packet.routing_header.hops[i + 1];
                if !contains_id(&self.neighbors, next) {
                    return DroneAction::Send(
                        self.send_nack(packet, NackType::ErrorInRouting(next), OnSent::Sent, OnRefused::Shortcut),
                    );
                }
                match &packet.pack_type {
                    PacketType::Nack(n) => DroneAction::Send(
                        self.send_nack(packet, n.nack_type, OnSent::Sent, OnRefused::Shortcut),
                    ),
                    PacketType::Ack(a) => DroneAction::Send(self.send_ack(packet, *a, OnSent::Sent, OnRefused::Shortcut)),
                    PacketType::MsgFragment(f) => {
                        if dropped {
                            DroneAction::Send(self.send_nack(packet, NackType::Dropped, OnSent::Dropped, OnRefused::Abort))
                        } else {
                            let p = Packet {
                                pack_type: PacketType::MsgFragment(*f),
                                routing_header: SourceRoutingHeader {
                                    hop_index: i + 1,
                                    hops: copy_ids(&packet.routing_header.hops),
                                },
                                session_id: packet.session_id,
                            };
                            DroneAction::Send(Forward { next_hop: next, packet: p, on_sent: OnSent::Sent, on_refused: OnRefused::Abort })
                        }
                    },
                    PacketType::FloodResponse(resp) => {
                        let resp2 = FloodResponse { flood_id: resp.flood_id, path_trace: copy_trace(&resp.path_trace) };
                        DroneAction::Send(self.send_flood_response(packet, resp2, OnSent::Sent, OnRefused::Shortcut))
                    },
                    PacketType::FloodRequest(_) => DroneAction::Nothing,
                }
            },
        }
    }

    /// The flood response to a flood request already seen (see
    /// `seen_flood_answer`).
    fn answer_seen_flood(&self, packet: &Packet, fr: &FloodRequest) -> (r: DroneAction)
        requires
            fr.path_trace@.len() == 0 ==> 1 <= packet.routing_header.hop_index <= packet.routing_header.hops@.len(),
            packet.pack_type == PacketType::FloodRequest(*fr),
        ensures
            r@ == seen_flood_answer(self@, packet@, fr.flood_id, fr.path_trace@),
    {
        let resp = FloodResponse { flood_id: fr.flood_id, path_trace: copy_trace(&fr.path_trace) };
        let n = fr.path_trace.len();
        if n > 0 {
            let mut hops = ids_of_trace(&fr.path_trace);
            hops.push(self.id);
            let sender = fr.path_trace[n - 1].0;
            let p = Packet::new_flood_response(SourceRoutingHeader { hop_index: n - 1, hops }, packet.session_id, resp);
            DroneAction::Send(Forward { next_hop: sender, packet: p, on_sent: OnSent::Sent, on_refused: OnRefused::Shortcut })
        } else {
            DroneAction::Send(self.send_flood_response(packet, resp, OnSent::Sent, OnRefused::Shortcut))
        }
    }

    /// Handles a packet while the drone is crashing.
    pub fn handle_packet_while_crashing(&self, packet: &Packet) -> (r: DroneAction)
        requires
            accepts_while_crashing(packet@),
        ensures
            r@ == crashing_plan(self@, packet@),
    {
        match &packet.pack_type {
            PacketType::FloodRequest(_) => DroneAction::Nothing,
            PacketType::Ack(a) => DroneAction::Send(self.send_ack(packet, *a, OnSent::Silent, OnRefused::Shortcut)),
            PacketType::Nack(n) => DroneAction::Send(self.send_nack(packet, n.nack_type, OnSent::Silent, OnRefused::Shortcut)),
            PacketType::FloodResponse(resp) => {
                let resp2 = FloodResponse { flood_id: resp.flood_id, path_trace: copy_trace(&resp.path_trace) };
                DroneAction::Send(self.send_flood_response(packet, resp2, OnSent::Silent, OnRefused::Shortcut))
            },
            PacketType::MsgFragment(_) => DroneAction::Send(
                self.send_nack(packet, NackType::ErrorInRouting(self.id), OnSent::Silent, OnRefused::Ignore),
            ),
        }
    }

    fn back_header(packet: &Packet) -> (r: SourceRoutingHeader)
        requires
            1 <= packet.routing_header.hop_index <= packet.routing_header.hops@.len(),
        ensures
            r@ == back_route(packet@),
    {
        SourceRoutingHeader {
            hop_index: packet.routing_header.hop_index - 1,
            hops: copy_ids(&packet.routing_header.hops),
        }
    }

    fn send_nack(&self, packet: &Packet, nack_type: NackType, on_sent: OnSent, on_refused: OnRefused) -> (r: Forward)
        requires
            1 <= packet.routing_header.hop_index <= packet.routing_header.hops@.len(),
        ensures
            DroneAction::Send(r)@ == nack_back(packet@, nack_type, on_sent, on_refused),
    {
        let fragment_index = match &packet.pack_type {
            PacketType::MsgFragment(f) => f.fragment_index,
            PacketType::Nack(n) => n.fragment_index,
            _ => 0,
        };
        let next = packet.routing_header.hops[packet.routing_header.hop_index - 1];
        let p = Packet::new_nack(Self::back_header(packet), packet.session_id, Nack { fragment_index, nack_type });
        Forward { next_hop: next, packet: p, on_sent, on_refused }
    }

    fn send_ack(&self, packet: &Packet, ack: Ack, on_sent: OnSent, on_refused: OnRefused) -> (r: Forward)
        requires
            1 <= packet.routing_header.hop_index <= packet.routing_header.hops@.len(),
        ensures
            DroneAction::Send(r)@ == send_back(packet@, PacketTypeView::Ack(ack), on_sent, on_refused),
    {
        let next = packet.routing_header.hops[packet.routing_header.hop_index - 1];
        let p = Packet::new_ack(Self::back_header(packet), packet.session_id, ack.fragment_index);
        Forward { next_hop: next, packet: p, on_sent, on_refused }
    }

    fn send_flood_response(&self, packet: &Packet, resp: FloodResponse, on_sent: OnSent, on_refused: OnRefused) -> (r: Forward)
        requires
            1 <= packet.routing_header.hop_index <= packet.routing_header.hops@.len(),
        ensures
            DroneAction::Send(r)@ == send_back(packet@, PacketType::FloodResponse(resp)@, on_sent, on_refused),
    {
        let next = packet.routing_header.hops[packet.routing_header.hop_index - 1];
        let p = Packet::new_flood_response(Self::back_header(packet), packet.session_id, resp);
        Forward { next_hop: next, packet: p, on_sent, on_refused }
    }

    fn send_flood_request(&self, packet: &Packet, fr: &FloodRequest) -> (r: DroneAction)
        requires
            fr.path_trace@.len() == 0 ==> 1 <= packet.routing_header.hop_index <= packet.routing_header.hops@.len(),
            packet.routing_header.hop_index < usize::MAX,
            packet.pack_type == PacketType::FloodRequest(*fr),
            !flood_seen(self@, fr.flood_id, fr.initiator_id),
        ensures
            r@ == drone_plan(self@, packet@, false),
    {
        let mut hops = copy_ids(&packet.routing_header.hops);
        hops.push(self.id);
        let mut trace = copy_trace(&fr.path_trace);
        trace.push((self.id, NodeType::Drone));
        let p = Packet {
            pack_type: PacketType::FloodRequest(
                FloodRequest { flood_id: fr.flood_id, initiator_id: fr.initiator_id, path_trace: trace },
            ),
            routing_header: SourceRoutingHeader { hop_index: packet.routing_header.hop_index + 1, hops },
            session_id: packet.session_id,
        };
        let n = fr.path_trace.len();
        let prev = if n > 0 {
            fr.path_trace[n - 1].0
        } else {
            packet.routing_header.hops[packet.routing_header.hop_index - 1]
        };
        let targets = remove_id(&self.neighbors, prev);
        DroneAction::Broadcast { targets, packet: p }
    }
}

/// The packet sent in `a`, when it is a single send, is routed to the very
/// neighbour it is sent to: its current hop is that neighbour.
pub open spec fn addressed_to_receiver(a: ForwardView) -> bool {
    match a {
        ForwardView::Send { next_hop, packet, .. } => {
            &&& packet.route.hop_index < packet.route.hops.len()
            &&& packet.route.hops[packet.route.hop_index as int] == next_hop
        },
        _ => true,
    }
}

/// Every packet a drone sends on, working or crashing, names as its current
/// hop the neighbour it goes to, so that neighbour finds itself on the route.
/// (A route and a path trace are lists in memory, so their lengths fit in a
/// `usize`.)
pub proof fn law_sends_are_addressed(d: DroneView, p: PacketView, dropped: bool)
    requires
        p.route.hops.len() <= usize::MAX,
        p.pack_type matches PacketTypeView::FloodRequest { path_trace, .. } ==> path_trace.len() <= usize::MAX,
    ensures
        accepts(d, p, dropped) ==> addressed_to_receiver(drone_plan(d, p, dropped)),
        accepts_while_crashing(p) ==> addressed_to_receiver(crashing_plan(d, p)),
{
    if let PacketTypeView::FloodRequest { flood_id, initiator_id, path_trace } = p.pack_type {
        if path_trace.len() > 0 {
            let h = trace_ids(path_trace).push(d.id);
            assert(h[path_trace.len() - 1] == path_trace.last().0);
        }
    }
}

/// The flood a flood request belongs to: its id and its initiator.
pub open spec fn flood_of(p: PacketView) -> (u64, NodeId) {
    match p.pack_type {
        PacketTypeView::FloodRequest { flood_id, initiator_id, .. } => (flood_id, initiator_id),
        _ => (0, 0),
    }
}

/// Law of flood memory: once a drone has handled a request of a flood, it
/// remembers the flood, and any later request of the same flood (same id,
/// same initiator) is answered with a flood response to the node it came
/// from instead of being passed on again.
pub proof fn law_flood_passed_on_once(d: DroneView, p: PacketView, q: PacketView, dropped: bool)
    requires
        p.pack_type is FloodRequest,
        q.pack_type is FloodRequest,
        flood_of(p) == flood_of(q),
    ensures
        flood_seen(drone_after(d, p), flood_of(p).0, flood_of(p).1),
        drone_plan(drone_after(d, p), q, dropped) == seen_flood_answer(
            drone_after(d, p),
            q,
            flood_of(q).0,
            q.pack_type->FloodRequest_path_trace,
        ),
{
}

/// The packet a single send carries (the packet itself for any other action).
pub open spec fn sent_packet(a: ForwardView, p: PacketView) -> PacketView {
    match a {
        ForwardView::Send { packet, .. } => packet,
        _ => p,
    }
}

/// `p` as the working drones `ds`, one after the other, pass it on without
/// dropping it: each takes what the one before sent.
pub open spec fn passed_on(ds: Seq<DroneView>, p: PacketView) -> PacketView
    decreases ds.len(),
{
    if ds.len() == 0 {
        p
    } else {
        passed_on(ds.drop_first(), sent_packet(drone_plan(ds[0], p, false), p))
    }
}

/// Each drone of `ds` can handle what it receives and sends it to the next
/// node on its route.
pub open spec fn hops_forward(ds: Seq<DroneView>, p: PacketView) -> bool
    decreases ds.len(),
{
    if ds.len() == 0 {
        true
    } else {
        let a = drone_plan(ds[0], p, false);
        &&& accepts(ds[0], p, false)
        &&& a matches ForwardView::Send { next_hop: n, .. } && n == next_hop(p)
        &&& hops_forward(ds.drop_first(), sent_packet(a, p))
    }
}

/// The drones `ds` are the nodes of the route of `p` from its current hop
/// up to the one before last, and each has a channel to the node after it.
pub open spec fn route_of_drones(ds: Seq<DroneView>, p: PacketView) -> bool {
    let i = p.route.hop_index as int;
    let h = p.route.hops;
    &&& 1 <= i
    &&& i + ds.len() + 1 == h.len()
    &&& forall|j: int| 0 <= j < ds.len() ==> (#[trigger] ds[j]).id == h[i + j] && ds[j].neighbors.contains(h[i + j + 1])
}

/// Law of delivery: a fragment whose route runs through drones that each
/// have a channel to the next node, and that none of them drops, goes from
/// each drone to the next node of the route, and reaches the last node as
/// the same fragment with its hop index on that node.
pub proof fn law_fragment_reaches_destination(ds: Seq<DroneView>, p: PacketView)
    requires
        p.pack_type is MsgFragment,
        p.route.hops.len() <= usize::MAX,
        route_of_drones(ds, p),
    ensures
        hops_forward(ds, p),
        passed_on(ds, p) == (PacketView {
            route: RouteView { hop_index: (p.route.hops.len() - 1) as usize, hops: p.route.hops },
            ..p
        }),
    decreases ds.len(),
{
    if ds.len() > 0 {
        let i = p.route.hop_index as int;
        let h = p.route.hops;
        assert(ds[0].id == h[i] && ds[0].neighbors.contains(h[i + 1]));
        let q = PacketView { route: RouteView { hop_index: (i + 1) as usize, hops: h }, ..p };
        assert(sent_packet(drone_plan(ds[0], p, false), p) == q);
        let rest = ds.drop_first();
        assert forall|j: int| 0 <= j < rest.len() implies (#[trigger] rest[j]).id == h[i + 1 + j]
            && rest[j].neighbors.contains(h[i + 1 + j + 1]) by {
            assert(rest[j] == ds[j + 1]);
        }
        law_fragment_reaches_destination(rest, q);
    }
}

/// Each drone of `ds` can handle what it receives and sends it to the node
/// before it on the route.
pub open spec fn hops_back(ds: Seq<DroneView>, p: PacketView) -> bool
    decreases ds.len(),
{
    if ds.len() == 0 {
        true
    } else {
        let a = drone_plan(ds[0], p, false);
        &&& accepts(ds[0], p, false)
        &&& a matches ForwardView::Send { next_hop: n, .. } && n == previous_hop(p)
        &&& hops_back(ds.drop_first(), sent_packet(a, p))
    }
}

/// The drones `ds` are the nodes of the route of `p` from its current hop
/// back to the second node, and each has a channel to the node after it on
/// the route (the one the packet came from).
pub open spec fn route_back_of_drones(ds: Seq<DroneView>, p: PacketView) -> bool {
    let i = p.route.hop_index as int;
    let h = p.route.hops;
    &&& ds.len() == i
    &&& i + 1 < h.len()
    &&& forall|j: int| 0 <= j < ds.len() ==> (#[trigger] ds[j]).id == h[i - j] && ds[j].neighbors.contains(h[i - j + 1])
}

/// Law of return: an ack or a nack travelling back along its route, through
/// drones that each have a channel to the node it came from, goes from each
/// drone to the node before it, and reaches the first node of the route
/// unchanged, with hop index 0.
pub proof fn law_answer_returns_to_sender(ds: Seq<DroneView>, p: PacketView)
    requires
        p.pack_type is Ack || p.pack_type is Nack,
        route_back_of_drones(ds, p),
    ensures
        hops_back(ds, p),
        passed_on(ds, p) == (PacketView { route: RouteView { hop_index: 0, hops: p.route.hops }, ..p }),
    decreases ds.len(),
{
    if ds.len() > 0 {
        let i = p.route.hop_index as int;
        let h = p.route.hops;
        assert(ds[0].id == h[i] && ds[0].neighbors.contains(h[i + 1]));
        let q = PacketView { route: RouteView { hop_index: (i - 1) as usize, hops: h }, ..p };
        assert(sent_packet(drone_plan(ds[0], p, false), p) == q);
        let rest = ds.drop_first();
        assert forall|j: int| 0 <= j < rest.len() implies (#[trigger] rest[j]).id == h[(i - 1) - j]
            && rest[j].neighbors.contains(h[(i - 1) - j + 1]) by {
            assert(rest[j] == ds[j + 1]);
        }
        law_answer_returns_to_sender(rest, q);
    }
}

/// Whether `id` occurs in `v`.
pub fn contains_id(v: &Vec<NodeId>, id: NodeId) -> (r: bool)
    ensures
        r == v@.contains(id),
{
    let mut i: usize = 0;
    while i < v.len()
        invariant
            i <= v.len(),
            forall|j: int| 0 <= j < i ==> v@[j] != id,
        decreases v.len() - i,
    {
        if v[i] == id {
            return true;
        }
        i = i + 1;
    }
    false
}

/// `v` without the occurrences of `id`, order kept.
pub fn remove_id(v: &Vec<NodeId>, id: NodeId) -> (r: Vec<NodeId>)
    ensures
        r@ == without(v@, id),
{
    let mut r: Vec<NodeId> = Vec::new();
    let mut i: usize = 0;
    while i < v.len()
        invariant
            i <= v.len(),
            r@ == without(v@.subrange(0, i as int), id),
        decreases v.len() - i,
    {
        proof {
            assert(v@.subrange(0, i + 1) =~= v@.subrange(0, i as int).push(v@[i as int]));
            v@.subrange(0, i as int).lemma_filter_push(v@[i as int], other_than(id));
        }
        if v[i] != id {
            r.push(v[i]);
        }
        i = i + 1;
    }
    proof {
        assert(v@.subrange(0, v@.len() as int) =~= v@);
    }
    r
}

} // verus!
