//! The communication server: it registers clients and keeps the chatroom.
use vstd::prelude::*;
use std::collections::HashSet;
use crate::packet::{NodeId, NodeType, Packet, PacketType};
use crate::topology::{Topology, updated_topology};
use crate::message::{
    ChatMessage, ChatRequest, ChatResponse, Chatroom, Message, ServerType, ServerTypeRequest,
    ServerTypeResponse, TextRequest, TextResponse, copy_node_set,
};
use crate::node::{NodeReaction, Outgoing, reaction_spec, react_to_packet, flood_start_packets, flood_start_view, push_decimal, decimal};
use crate::drone::contains_id;
use crate::random::random_u64;

verus! {

/// The state of a communication server, apart from its channels.
pub struct CommunicationServer {
    pub id: NodeId,
    connected_drone_ids: Vec<NodeId>,
    topology: Topology,
    registered_clients: HashSet<NodeId>,
    messages_stored: Vec<ChatMessage>,
}

/// Mathematical model of a communication server.
pub struct ChatServerView {
    pub id: NodeId,
    pub connected_drone_ids: Seq<NodeId>,
    pub topology: Map<NodeId, Seq<NodeId>>,
    /// The registered clients.
    pub registered: Set<NodeId>,
    /// The chatroom: sender and text of each stored line, oldest first.
    pub messages: Seq<(NodeId, Seq<char>)>,
}

/// The model of a chatroom line.
pub open spec fn line_view(m: ChatMessage) -> (NodeId, Seq<char>) {
    (m.sender_id, m.content@)
}

/// The model of a list of chatroom lines.
pub open spec fn lines_view(v: Seq<ChatMessage>) -> Seq<(NodeId, Seq<char>)> {
    v.map_values(|m: ChatMessage| line_view(m))
}

impl View for CommunicationServer {
    type V = ChatServerView;

    closed spec fn view(&self) -> ChatServerView {
        ChatServerView {
            id: self.id,
            connected_drone_ids: self.connected_drone_ids@,
            topology: self.topology@,
            registered: self.registered_clients@,
            messages: lines_view(self.messages_stored@),
        }
    }
}

/// The line that announces client `c` in the chatroom.
pub open spec fn entered_text(c: NodeId) -> Seq<char> {
    "Client "@ + decimal(c as nat) + " has entered the chatroom"@
}

/// The server after client `c` registers: `c` is registered (once) and its
/// arrival is announced in the chatroom.
pub open spec fn after_register(v: ChatServerView, c: NodeId) -> ChatServerView {
    ChatServerView {
        registered: v.registered.insert(c),
        messages: v.messages.push((c, entered_text(c))),
        ..v
    }
}

/// The server after `from` sends `text`: stored if `from` is registered,
/// ignored otherwise.
pub open spec fn after_incoming(v: ChatServerView, from: NodeId, text: Seq<char>) -> ChatServerView {
    if v.registered.contains(from) {
        ChatServerView { messages: v.messages.push((from, text)), ..v }
    } else {
        v
    }
}

/// What a chat request leads to.
pub enum ChatOutcome {
    /// A response to send.
    Reply(Outgoing<ChatResponse>),
    /// A line was stored: the whole chatroom, to report to the controller.
    ChatroomUpdated(Chatroom),
}

/// A copy of the chatroom lines.
pub fn copy_lines(v: &Vec<ChatMessage>) -> (r: Vec<ChatMessage>)
    ensures
        lines_view(r@) == lines_view(v@),
{
    let mut r: Vec<ChatMessage> = Vec::new();
    let mut i: usize = 0;
    while i < v.len()
        invariant
            i <= v.len(),
            r@.len() == i,
            lines_view(r@) == lines_view(v@.subrange(0, i as int)),
        decreases v.len() - i,
    {
        let line = ChatMessage { sender_id: v[i].sender_id, content: v[i].content.clone() };
        let ghost r0 = r@;
        proof { assert(lines_view(r0) == lines_view(v@.subrange(0, i as int))); }
        r.push(line);
        i = i + 1;
        proof {
            assert forall|k: int| 0 <= k < i implies #[trigger] lines_view(r@)[k] == lines_view(v@.subrange(0, i as int))[k] by {
                if k < i - 1 {
                    assert(r@[k] == r0[k]);
                    assert(lines_view(r0)[k] == lines_view(v@.subrange(0, i - 1))[k]);
                }
            }
            assert(lines_view(r@) =~= lines_view(v@.subrange(0, i as int)));
        }
    }
    proof {
        assert(v@.subrange(0, v@.len() as int) =~= v@);
    }
    r
}

/// The server state `new` and the outcome `r` after chat request `request`
/// reached a server in state `old`, with session `session` for a reply:
/// registration is answered with `ClientRegistered`, a client list request
/// with the list, a line as `after_incoming` says.
pub open spec fn chat_handled(old: ChatServerView, new: ChatServerView, request: Message<ChatRequest>, r: ChatOutcome, session: u64) -> bool {
    match request.content {
        ChatRequest::Register(c) => {
            &&& new == after_register(old, c)
            &&& r matches ChatOutcome::Reply(out) && out.target == c
                && out.message.source_id == old.id && out.message.session_id == session
                && out.message.content == ChatResponse::ClientRegistered(old.id)
        },
        ChatRequest::ClientList => {
            &&& new == old
            &&& r matches ChatOutcome::Reply(out) && out.target == request.source_id
                && out.message.source_id == old.id && out.message.session_id == session
                && (out.message.content matches ChatResponse::ClientList(l) && l@ == old.registered)
        },
        ChatRequest::SendMessage { from, message } => {
            &&& new == after_incoming(old, from, message@)
            &&& old.registered.contains(from) ==> (r matches ChatOutcome::ChatroomUpdated(room)
                && room.server_id == old.id && lines_view(room.chatroom_messages@) == new.messages)
            &&& !old.registered.contains(from) ==> (r matches ChatOutcome::Reply(out)
                && out.target == from && out.message.source_id == old.id
                && out.message.session_id == session && out.message.content is ClientNotRegistered)
        },
    }
}

impl CommunicationServer {
    pub fn new(
        id: NodeId,
        connected_drone_ids: Vec<NodeId>,
        topology: Topology,
        registered_clients: HashSet<NodeId>,
        messages_stored: Vec<ChatMessage>,
    ) -> (r: Self)
        ensures
            r@.id == id,
            r@.connected_drone_ids == connected_drone_ids@,
            r@.topology == topology@,
            r@.registered == registered_clients@,
            r@.messages == lines_view(messages_stored@),
    {
        CommunicationServer { id, connected_drone_ids, topology, registered_clients, messages_stored }
    }

    pub fn topology(&self) -> (r: &Topology)
        ensures
            r@ == self@.topology,
    {
        &self.topology
    }

    /// The flood requests that start flood `flood_id`, one per connected drone.
    pub fn start_flood(&self, flood_id: u64) -> (r: Vec<(NodeId, Packet)>)
        ensures
            r@.len() == self@.connected_drone_ids.len(),
            forall|i: int| 0 <= i < r@.len() ==> #[trigger] r@[i].0 == self@.connected_drone_ids[i]
                && r@[i].1@ == flood_start_view(self@.id, NodeType::Server, self@.connected_drone_ids[i], flood_id),
    {
        flood_start_packets(self.id, NodeType::Server, &self.connected_drone_ids, flood_id)
    }

    /// Reacts to a packet; a flood response updates the topology (a server
    /// keeps clients).
    pub fn handle_packet(&mut self, packet: &Packet) -> (r: NodeReaction)
        requires
            packet.pack_type matches PacketType::FloodResponse(resp) ==> resp.path_trace@.len() > 0,
        ensures
            match packet.pack_type {
                PacketType::FloodResponse(resp) => final(self)@ == (ChatServerView {
                    topology: updated_topology(old(self)@.topology, resp.path_trace@, false),
                    ..old(self)@
                }) && r is Nothing,
                _ => final(self)@ == old(self)@ && reaction_spec(r, packet@, old(self)@.id, NodeType::Server),
            },
    {
        match &packet.pack_type {
            PacketType::FloodResponse(resp) => {
                self.topology.update_with_flood_response(resp, false);
                NodeReaction::Nothing
            },
            _ => react_to_packet(packet, self.id, NodeType::Server),
        }
    }

    /// Answers a server type request: this is a communication server.
    pub fn on_server_type_request(&self, request: &Message<ServerTypeRequest>, fresh_session: u64) -> (r: Outgoing<ServerTypeResponse>)
        ensures
            r.target == request.source_id,
            r.message.source_id == self@.id,
            r.message.session_id == fresh_session,
            r.message.content == ServerTypeResponse::ServerType(ServerType::CommunicationServer),
    {
        Outgoing {
            target: request.source_id,
            message: Message {
                source_id: self.id,
                session_id: fresh_session,
                content: ServerTypeResponse::ServerType(ServerType::CommunicationServer),
            },
        }
    }

    /// Answers a text request: a communication server has no text.
    pub fn on_text_request(&self, request: &Message<TextRequest>, fresh_session: u64) -> (r: Outgoing<TextResponse>)
        ensures
            r.target == request.source_id,
            r.message.source_id == self@.id,
            r.message.session_id == fresh_session,
            r.message.content is NotFound,
    {
        Outgoing {
            target: request.source_id,
            message: Message { source_id: self.id, session_id: fresh_session, content: TextResponse::NotFound },
        }
    }

    /// Registers client `c` and announces it in the chatroom.
    pub fn register(&mut self, c: NodeId)
        ensures
            final(self)@ == after_register(old(self)@, c),
    {
        self.registered_clients.insert(c);
        let mut text = String::from_str("Client ");
        push_decimal(&mut text, c);
        text.append(" has entered the chatroom");
        let ghost t = text@;
        self.messages_stored.push(ChatMessage { sender_id: c, content: text });
        proof {
            assert(t == entered_text(c));
            assert(self@.messages =~= old(self)@.messages.push((c, entered_text(c))));
            assert(self@.registered =~= old(self)@.registered.insert(c));
        }
    }

    /// The registered clients.
    pub fn client_list(&self) -> (r: HashSet<NodeId>)
        ensures
            r@ == self@.registered,
    {
        copy_node_set(&self.registered_clients)
    }

    /// The whole chatroom.
    pub fn chatroom(&self) -> (r: Chatroom)
        ensures
            r.server_id == self@.id,
            lines_view(r.chatroom_messages@) == self@.messages,
    {
        Chatroom { server_id: self.id, chatroom_messages: copy_lines(&self.messages_stored) }
    }

    /// A line `content` sent by `client_id`: stored, with the chatroom
    /// reported, if the client is registered; otherwise the client is told
    /// it is not registered.
    pub fn handle_incoming_message(&mut self, client_id: NodeId, content: String, fresh_session: u64) -> (r: ChatOutcome)
        ensures
            final(self)@ == after_incoming(old(self)@, client_id, content@),
            old(self)@.registered.contains(client_id) ==> (r matches ChatOutcome::ChatroomUpdated(room)
                && room.server_id == old(self)@.id && lines_view(room.chatroom_messages@) == final(self)@.messages),
            !old(self)@.registered.contains(client_id) ==> (r matches ChatOutcome::Reply(out)
                && out.target == client_id && out.message.source_id == old(self)@.id
                && out.message.session_id == fresh_session && out.message.content is ClientNotRegistered),
    {
        if !self.registered_clients.contains(&client_id) {
            return ChatOutcome::Reply(Outgoing {
                target: client_id,
                message: Message { source_id: self.id, session_id: fresh_session, content: ChatResponse::ClientNotRegistered },
            });
        }
        let ghost c = content@;
        self.messages_stored.push(ChatMessage { sender_id: client_id, content });
        proof {
            assert(self@.messages =~= old(self)@.messages.push((client_id, c)));
        }
        ChatOutcome::ChatroomUpdated(self.chatroom())
    }

    /// Handles a chat request: registration is answered with
    /// `ClientRegistered`, a client list request with the list, a line with
    /// `handle_incoming_message`.
    pub fn on_chat_request(&mut self, request: Message<ChatRequest>, fresh_session: u64) -> (r: ChatOutcome)
        ensures
            chat_handled(old(self)@, final(self)@, request, r, fresh_session),
    {
        match request.content {
            ChatRequest::Register(c) => {
                self.register(c);
                ChatOutcome::Reply(Outgoing {
                    target: c,
                    message: Message { source_id: self.id, session_id: fresh_session, content: ChatResponse::ClientRegistered(self.id) },
                })
            },
            ChatRequest::ClientList => ChatOutcome::Reply(Outgoing {
                target: request.source_id,
                message: Message {
                    source_id: self.id,
                    session_id: fresh_session,
                    content: ChatResponse::ClientList(self.client_list()),
                },
            }),
            ChatRequest::SendMessage { from, message } => self.handle_incoming_message(from, message, fresh_session),
        }
    }

    /// Handles a chat request, replying in a fresh random session.
    pub fn handle_chat_request(&mut self, request: Message<ChatRequest>) -> (r: ChatOutcome)
        ensures
            exists|s: u64| #[trigger] chat_handled(old(self)@, final(self)@, request, r, s),
    {
        let s = random_u64();
        self.on_chat_request(request, s)
    }

    /// Answers a server type request in a fresh random session.
    pub fn send_server_type_response(&self, request: &Message<ServerTypeRequest>) -> (r: Outgoing<ServerTypeResponse>)
        ensures
            r.target == request.source_id,
            r.message.source_id == self@.id,
            r.message.content == ServerTypeResponse::ServerType(ServerType::CommunicationServer),
    {
        self.on_server_type_request(request, random_u64())
    }

    /// Answers a text request in a fresh random session.
    pub fn send_text_response(&self, request: &Message<TextRequest>) -> (r: Outgoing<TextResponse>)
        ensures
            r.target == request.source_id,
            r.message.source_id == self@.id,
            r.message.content is NotFound,
    {
        self.on_text_request(request, random_u64())
    }

    /// Starts a flood whose id mixes `timestamp` with a random draw; returns
    /// the id and the flood requests, one per connected drone.
    #[verifier::spinoff_prover]
    pub fn start_flood_request(&self, timestamp: u64) -> (r: (u64, Vec<(NodeId, Packet)>))
        ensures
            r.1@.len() == self@.connected_drone_ids.len(),
            forall|i: int| #![trigger r.1@[i]] 0 <= i < r.1@.len() ==> r.1@[i].0 == self@.connected_drone_ids[i]
                && r.1@[i].1@ == flood_start_view(self@.id, NodeType::Server, self@.connected_drone_ids[i], r.0),
    {
        let flood_id = timestamp ^ random_u64();
        let packets = self.start_flood(flood_id);
        (flood_id, packets)
    }
}

/// Law: once a client has registered, every line it sends is stored at the
/// end of the chatroom.
pub proof fn law_registered_client_is_heard(v: ChatServerView, c: NodeId, text: Seq<char>)
    ensures
        after_incoming(after_register(v, c), c, text).messages == after_register(v, c).messages.push((c, text)),
{
}

/// Law: a line from a client that is not registered leaves the server as
/// it was.
pub proof fn law_unregistered_client_is_not_heard(v: ChatServerView, c: NodeId, text: Seq<char>)
    requires
        !v.registered.contains(c),
    ensures
        after_incoming(v, c, text) == v,
{
}

/// Law: registration and incoming lines never take a line out of the
/// chatroom nor unregister a client.
pub proof fn law_chatroom_only_grows(v: ChatServerView, c: NodeId, text: Seq<char>)
    ensures
        v.messages.is_prefix_of(after_register(v, c).messages),
        v.messages.is_prefix_of(after_incoming(v, c, text).messages),
        v.registered.subset_of(after_register(v, c).registered),
        after_incoming(v, c, text).registered == v.registered,
{
    assert(v.messages.is_prefix_of(v.messages.push((c, entered_text(c)))));
    assert(v.messages.is_prefix_of(v.messages.push((c, text))));
    assert(v.messages.is_prefix_of(v.messages));
}

/// Law: registering twice registers as once (the chatroom announces each
/// registration).
pub proof fn law_registered_once(v: ChatServerView, c: NodeId)
    ensures
        after_register(after_register(v, c), c).registered == after_register(v, c).registered,
        after_register(v, c).registered.contains(c),
{
    assert(after_register(after_register(v, c), c).registered =~= after_register(v, c).registered);
}

} // verus!
