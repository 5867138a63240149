//! The client: it learns the servers of the network, asks for their type,
//! and sends them requests.
use vstd::prelude::*;
use std::collections::HashMap;
use vstd::std_specs::iter::IteratorSpec;
use crate::packet::{NodeId, NodeType, Packet, PacketType};
use crate::topology::{Topology, updated_topology};
use crate::message::{ChatRequest, Message, ServerType, ServerTypeRequest, ServerTypeResponse, TextRequest};
use crate::random::random_u64;
use crate::node::{NodeReaction, Outgoing, reaction_spec, react_to_packet, flood_start_packets, flood_start_view};

verus! {

/// The state of a client, apart from its channels.
pub struct Client {
    pub id: NodeId,
    connected_drone_ids: Vec<NodeId>,
    topology: Topology,
    server_type_map: HashMap<NodeId, Option<ServerType>>,
}

/// Mathematical model of a client.
pub struct ClientView {
    pub id: NodeId,
    pub connected_drone_ids: Seq<NodeId>,
    pub topology: Map<NodeId, Seq<NodeId>>,
    /// The servers found, with their type once it is known.
    pub server_types: Map<NodeId, Option<ServerType>>,
}

impl View for Client {
    type V = ClientView;

    closed spec fn view(&self) -> ClientView {
        ClientView {
            id: self.id,
            connected_drone_ids: self.connected_drone_ids@,
            topology: self.topology@,
            server_types: self.server_type_map@,
        }
    }
}

/// The servers whose type is not known yet.
pub open spec fn untyped_servers(m: Map<NodeId, Option<ServerType>>) -> Set<NodeId> {
    m.dom().filter(|k: NodeId| m[k] is None)
}

/// The client after taking in a flood response with path trace `trace`:
/// the topology is updated (a client keeps servers) and a server that
/// answered is recorded with an unknown type.
pub open spec fn after_flood_response(v: ClientView, trace: Seq<(NodeId, NodeType)>) -> ClientView {
    ClientView {
        topology: updated_topology(v.topology, trace, true),
        server_types: if trace.last().1 == NodeType::Server {
            v.server_types.insert(trace.last().0, None)
        } else {
            v.server_types
        },
        ..v
    }
}

impl Client {
    pub fn new(id: NodeId, connected_drone_ids: Vec<NodeId>, topology: Topology) -> (r: Self)
        ensures
            r@ == (ClientView {
                id,
                connected_drone_ids: connected_drone_ids@,
                topology: topology@,
                server_types: Map::empty(),
            }),
    {
        let r = Client { id, connected_drone_ids, topology, server_type_map: HashMap::new() };
        proof {
            assert(r@.server_types =~= Map::<NodeId, Option<ServerType>>::empty());
        }
        r
    }

    pub fn topology(&self) -> (r: &Topology)
        ensures
            r@ == self@.topology,
    {
        &self.topology
    }

    /// The flood requests that start flood `flood_id`, one per connected drone.
    pub fn start_flood(&self, flood_id: u64) -> (r: Vec<(NodeId, Packet)>)
        ensures
            r@.len() == self@.connected_drone_ids.len(),
            forall|i: int| 0 <= i < r@.len() ==> #[trigger] r@[i].0 == self@.connected_drone_ids[i]
                && r@[i].1@ == flood_start_view(self@.id, NodeType::Client, self@.connected_drone_ids[i], flood_id),
    {
        flood_start_packets(self.id, NodeType::Client, &self.connected_drone_ids, flood_id)
    }

    fn set_server_type(&mut self, k: NodeId, t: Option<ServerType>)
        ensures
            final(self)@ == (ClientView { server_types: old(self)@.server_types.insert(k, t), ..old(self)@ }),
    {
        self.server_type_map.insert(k, t);
        proof {
            assert(self@.server_types =~= old(self)@.server_types.insert(k, t));
        }
    }

    /// Reacts to a packet; a flood response updates the topology and records
    /// a server that answered (see `after_flood_response`).
    pub fn handle_packet(&mut self, packet: &Packet) -> (r: NodeReaction)
        requires
            packet.pack_type matches PacketType::FloodResponse(resp) ==> resp.path_trace@.len() > 0,
        ensures
            match packet.pack_type {
                PacketType::FloodResponse(resp) => final(self)@ == after_flood_response(old(self)@, resp.path_trace@)
                    && r is Nothing,
                _ => final(self)@ == old(self)@ && reaction_spec(r, packet@, old(self)@.id, NodeType::Client),
            },
    {
        match &packet.pack_type {
            PacketType::FloodResponse(resp) => {
                self.topology.update_with_flood_response(resp, true);
                let (node_id, node_type) = resp.path_trace[resp.path_trace.len() - 1];
                if node_type == NodeType::Server {
                    self.set_server_type(node_id, None);
                }
                NodeReaction::Nothing
            },
            _ => react_to_packet(packet, self.id, NodeType::Client),
        }
    }

    /// Records the type a server announced.
    pub fn on_server_type_response(&mut self, response: &Message<ServerTypeResponse>)
        ensures
            match response.content {
                ServerTypeResponse::ServerType(t) => final(self)@ == (ClientView {
                    server_types: old(self)@.server_types.insert(response.source_id, Some(t)),
                    ..old(self)@
                }),
            },
    {
        match response.content {
            ServerTypeResponse::ServerType(t) => self.set_server_type(response.source_id, Some(t)),
        }
    }

    /// The servers to ask for their type: those whose type is not known,
    /// each once, in no set order.
    pub fn servers_without_type(&self) -> (r: Vec<NodeId>)
        ensures
            r@.no_duplicates(),
            r@.to_set() == untyped_servers(self@.server_types),
    {
        let m = &self.server_type_map;
        let ghost ks = vstd::std_specs::hash::spec_keys_iter(m).remaining();
        let ghost p = |k: NodeId| m@[k] is None;
        let mut r: Vec<NodeId> = Vec::new();
        for k in it: m.keys()
            invariant
                it.seq() == ks,
                ks.unref().no_duplicates(),
                ks.unref().to_set() == m@.dom(),
                p == (|k: NodeId| m@[k] is None),
                r@.no_duplicates(),
                forall|x: NodeId| r@.contains(x) <==> (it.seq().take(it.index() as int).unref().contains(x) && p(x)),
        {
            let ghost before = it.seq().take(it.index() as int).unref();
            proof {
                assert(it.seq().take(it.index() as int + 1).unref() =~= before.push(*k));
                assert(ks.unref().to_set().contains(*k));
            }
            let none = match m.get(k) {
                Some(t) => t.is_none(),
                None => false,
            };
            proof {
                assert(none == p(*k));
            }
            let ghost r0 = r@;
            if none {
                proof {
                    if r@.contains(*k) {
                        let j = choose|j: int| 0 <= j < before.len() && before[j] == *k;
                        assert(ks.unref()[j] == ks.unref()[it.index() as int]);
                    }
                }
                r.push(*k);
            }
            proof {
                broadcast use vstd::seq_lib::group_seq_properties;
                assert(r@ == if none { r0.push(*k) } else { r0 });
                assert forall|x: NodeId| r@.contains(x) <==> (before.push(*k).contains(x) && p(x)) by {
                    assert(r0.contains(x) <==> (before.contains(x) && p(x)));
                }
            }
        }
        proof {
            assert(ks.take(ks.len() as int) =~= ks);
            assert(r@.to_set() =~= untyped_servers(self@.server_types));
        }
        r
    }

    /// A request from this client to `server` in session `fresh_session`.
    pub fn request<M>(&self, server: NodeId, content: M, fresh_session: u64) -> (r: Outgoing<M>)
        ensures
            r.target == server,
            r.message.source_id == self@.id,
            r.message.session_id == fresh_session,
            r.message.content == content,
    {
        Outgoing { target: server, message: Message { source_id: self.id, session_id: fresh_session, content } }
    }

    /// Asks `server` for its type.
    pub fn server_type_request(&self, server: NodeId, fresh_session: u64) -> (r: Outgoing<ServerTypeRequest>)
        ensures
            r.target == server,
            r.message.source_id == self@.id,
            r.message.session_id == fresh_session,
            r.message.content == ServerTypeRequest::GetServerType,
    {
        self.request(server, ServerTypeRequest::GetServerType, fresh_session)
    }

    /// Asks `server` to register this client.
    pub fn registration_request(&self, server: NodeId, fresh_session: u64) -> (r: Outgoing<ChatRequest>)
        ensures
            r.target == server,
            r.message.source_id == self@.id,
            r.message.session_id == fresh_session,
            r.message.content == ChatRequest::Register(self@.id),
    {
        self.request(server, ChatRequest::Register(self.id), fresh_session)
    }

    /// Sends line `content` to the chatroom of `server`.
    pub fn chat_message(&self, server: NodeId, content: String, fresh_session: u64) -> (r: Outgoing<ChatRequest>)
        ensures
            r.target == server,
            r.message.source_id == self@.id,
            r.message.session_id == fresh_session,
            r.message.content matches ChatRequest::SendMessage { from, message } && from == self@.id && message == content,
    {
        self.request(server, ChatRequest::SendMessage { from: self.id, message: content }, fresh_session)
    }

    /// A request from this client to `server`, in a fresh random session.
    pub fn send_request<M>(&self, server: NodeId, content: M) -> (r: Outgoing<M>)
        ensures
            r.target == server,
            r.message.source_id == self@.id,
            r.message.content == content,
    {
        self.request(server, content, random_u64())
    }

    /// Asks `server` for its type, in a fresh random session.
    pub fn send_server_type_request(&self, server: NodeId) -> (r: Outgoing<ServerTypeRequest>)
        ensures
            r.target == server,
            r.message.source_id == self@.id,
            r.message.content == ServerTypeRequest::GetServerType,
    {
        self.server_type_request(server, random_u64())
    }

    /// Asks `server` for its list of text files, in a fresh random session.
    pub fn send_text_request_text_list(&self, server: NodeId) -> (r: Outgoing<TextRequest>)
        ensures
            r.target == server,
            r.message.source_id == self@.id,
            r.message.content == TextRequest::TextList,
    {
        self.request(server, TextRequest::TextList, random_u64())
    }

    /// Asks `server` for text file `file_id`, in a fresh random session.
    pub fn send_text_request_text(&self, server: NodeId, file_id: u64) -> (r: Outgoing<TextRequest>)
        ensures
            r.target == server,
            r.message.source_id == self@.id,
            r.message.content == TextRequest::Text(file_id),
    {
        self.request(server, TextRequest::Text(file_id), random_u64())
    }

    /// Asks `server` to register this client, in a fresh random session.
    pub fn send_registration_request(&self, server: NodeId) -> (r: Outgoing<ChatRequest>)
        ensures
            r.target == server,
            r.message.source_id == self@.id,
            r.message.content == ChatRequest::Register(self@.id),
    {
        self.registration_request(server, random_u64())
    }

    /// Sends line `content` to the chatroom of `server`, in a fresh random
    /// session.
    pub fn send_chat_message(&self, server: NodeId, content: String) -> (r: Outgoing<ChatRequest>)
        ensures
            r.target == server,
            r.message.source_id == self@.id,
            r.message.content matches ChatRequest::SendMessage { from, message } && from == self@.id && message == content,
    {
        self.chat_message(server, content, random_u64())
    }

    /// Starts a flood whose id mixes `timestamp` with a random draw; returns
    /// the id and the flood requests, one per connected drone.
    #[verifier::spinoff_prover]
    pub fn start_flood_request(&self, timestamp: u64) -> (r: (u64, Vec<(NodeId, Packet)>))
        ensures
            r.1@.len() == self@.connected_drone_ids.len(),
            forall|i: int| 0 <= i < r.1@.len() ==> #[trigger] r.1@[i].0 == self@.connected_drone_ids[i]
                && r.1@[i].1@ == flood_start_view(self@.id, NodeType::Client, self@.connected_drone_ids[i], r.0),
    {
        let flood_id = timestamp ^ random_u64();
        let packets = self.start_flood(flood_id);
        (flood_id, packets)
    }
}

} // verus!
