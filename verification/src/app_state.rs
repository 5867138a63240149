//! What the controller's window remembers of the events it received: the
//! registrations, the chatrooms, the media lists and downloads, and whether
//! the drawing of the network must be refreshed.
use vstd::prelude::*;
use std::collections::{HashMap, HashSet};
use crate::packet::{NodeId, Packet, PacketType};
use crate::message::{ChatMessage, ChatResponse, MediaResponseForMessageContent, MessageContent, copy_node_set, copy_u64s};
use crate::communication_server::{copy_lines, lines_view};
use crate::downloads::pair_key;
use crate::logs::{ClientEvent, ServerEvent};

verus! {

broadcast use vstd::std_specs::hash::group_hash_axioms;

/// The window's memory of past events.
pub struct AppState {
    registered_clients: HashSet<NodeId>,
    registered_servers: HashMap<NodeId, Vec<NodeId>>,
    client_images: HashMap<NodeId, Vec<u64>>,
    client_image_lists: HashMap<u16, Vec<u64>>,
    chatrooms_messages: HashMap<NodeId, Vec<ChatMessage>>,
    topology_needs_update: bool,
}

/// Mathematical model of the window's memory.
pub struct AppStateView {
    /// The clients of the last client list received.
    pub registered_clients: Set<NodeId>,
    /// For each client, the servers it registered to, in order.
    pub registered_servers: Map<NodeId, Seq<NodeId>>,
    /// For each client, the media it received, in order.
    pub client_images: Map<NodeId, Seq<u64>>,
    /// For each (client, server) pair, the last media list received.
    pub client_image_lists: Map<u16, Seq<u64>>,
    /// For each communication server, its last chatroom.
    pub chatrooms: Map<NodeId, Seq<(NodeId, Seq<char>)>>,
    pub topology_needs_update: bool,
}

impl View for AppState {
    type V = AppStateView;

    closed spec fn view(&self) -> AppStateView {
        AppStateView {
            registered_clients: self.registered_clients@,
            registered_servers: self.registered_servers@.map_values(|v: Vec<NodeId>| v@),
            client_images: self.client_images@.map_values(|v: Vec<u64>| v@),
            client_image_lists: self.client_image_lists@.map_values(|v: Vec<u64>| v@),
            chatrooms: self.chatrooms_messages@.map_values(|v: Vec<ChatMessage>| lines_view(v@)),
            topology_needs_update: self.topology_needs_update,
        }
    }
}

/// The list stored for `k`, empty when there is none.
pub open spec fn list_of<K, T>(m: Map<K, Seq<T>>, k: K) -> Seq<T> {
    if m.contains_key(k) {
        m[k]
    } else {
        Seq::empty()
    }
}

/// A received packet carries a flood response.
pub open spec fn is_flood_response(p: Packet) -> bool {
    p.pack_type is FloodResponse
}

/// The memory after a client reported `e`.
pub open spec fn after_client_event(s: AppStateView, e: ClientEvent) -> AppStateView {
    match e {
        ClientEvent::PacketReceived(p) => if is_flood_response(p) {
            AppStateView { topology_needs_update: true, ..s }
        } else {
            s
        },
        ClientEvent::MessageReceived { receiver, content } => match content {
            MessageContent::ChatResponse(ChatResponse::ClientList(c)) => AppStateView { registered_clients: c@, ..s },
            MessageContent::ChatResponse(ChatResponse::ClientRegistered(server)) => AppStateView {
                registered_servers: s.registered_servers.insert(receiver, list_of(s.registered_servers, receiver).push(server)),
                ..s
            },
            MessageContent::MediaResponse(MediaResponseForMessageContent::Media(id)) => AppStateView {
                client_images: s.client_images.insert(receiver, list_of(s.client_images, receiver).push(id)),
                ..s
            },
            MessageContent::MediaListWithServer(server, list) => AppStateView {
                client_image_lists: s.client_image_lists.insert(pair_key(receiver, server), list@),
                ..s
            },
            _ => s,
        },
        _ => s,
    }
}

/// The memory after a server reported `e`.
pub open spec fn after_server_event(s: AppStateView, e: ServerEvent) -> AppStateView {
    match e {
        ServerEvent::PacketReceived(p) => if is_flood_response(p) {
            AppStateView { topology_needs_update: true, ..s }
        } else {
            s
        },
        ServerEvent::MessageReceived { content: MessageContent::WholeChatVecResponse(room), .. } => AppStateView {
            chatrooms: s.chatrooms.insert(room.server_id, lines_view(room.chatroom_messages@)),
            ..s
        },
        _ => s,
    }
}

fn pair_key_of(client: NodeId, server: NodeId) -> (r: u16)
    ensures
        r == pair_key(client, server),
{
    (client as u16) * 256 + (server as u16)
}

/// Whether `p` carries a flood response.
fn carries_flood_response(p: &Packet) -> (r: bool)
    ensures
        r == is_flood_response(*p),
{
    match &p.pack_type {
        PacketType::FloodResponse(_) => true,
        _ => false,
    }
}

impl AppState {
    /// Nothing remembered; the drawing must be made.
    pub fn new() -> (r: Self)
        ensures
            r@.registered_clients == Set::<NodeId>::empty(),
            r@.registered_servers == Map::<NodeId, Seq<NodeId>>::empty(),
            r@.client_images == Map::<NodeId, Seq<u64>>::empty(),
            r@.client_image_lists == Map::<u16, Seq<u64>>::empty(),
            r@.chatrooms == Map::<NodeId, Seq<(NodeId, Seq<char>)>>::empty(),
            r@.topology_needs_update,
    {
        let r = AppState {
            registered_clients: HashSet::new(),
            registered_servers: HashMap::new(),
            client_images: HashMap::new(),
            client_image_lists: HashMap::new(),
            chatrooms_messages: HashMap::new(),
            topology_needs_update: true,
        };
        proof {
            assert(r@.registered_servers =~= Map::<NodeId, Seq<NodeId>>::empty());
            assert(r@.client_images =~= Map::<NodeId, Seq<u64>>::empty());
            assert(r@.client_image_lists =~= Map::<u16, Seq<u64>>::empty());
            assert(r@.chatrooms =~= Map::<NodeId, Seq<(NodeId, Seq<char>)>>::empty());
        }
        r
    }

    /// Whether the drawing of the network must be refreshed.
    pub fn topology_needs_update(&self) -> (r: bool)
        ensures
            r == self@.topology_needs_update,
    {
        self.topology_needs_update
    }

    /// Records that the drawing was refreshed.
    pub fn topology_updated(&mut self)
        ensures
            final(self)@ == (AppStateView { topology_needs_update: false, ..old(self)@ }),
    {
        self.topology_needs_update = false;
    }

    /// Asks for the drawing to be refreshed (after a change of the network).
    pub fn request_topology_update(&mut self)
        ensures
            final(self)@ == (AppStateView { topology_needs_update: true, ..old(self)@ }),
    {
        self.topology_needs_update = true;
    }

    /// Whether `client` registered to `server`.
    pub fn is_registered(&self, client: NodeId, server: NodeId) -> (r: bool)
        ensures
            r == list_of(self@.registered_servers, client).contains(server),
    {
        match self.registered_servers.get(&client) {
            Some(v) => {
                let mut i: usize = 0;
                while i < v.len()
                    invariant
                        i <= v.len(),
                        self.registered_servers@.contains_key(client),
                        self.registered_servers@[client] == *v,
                        forall|k: int| 0 <= k < i ==> v@[k] != server,
                    decreases v.len() - i,
                {
                    if v[i] == server {
                        return true;
                    }
                    i = i + 1;
                }
                false
            },
            None => false,
        }
    }

    /// Whether `client` is in the last client list received.
    pub fn is_registered_client(&self, client: NodeId) -> (r: bool)
        ensures
            r == self@.registered_clients.contains(client),
    {
        self.registered_clients.contains(&client)
    }

    /// The media `client` received, in order.
    pub fn images_of(&self, client: NodeId) -> (r: Vec<u64>)
        ensures
            r@ == list_of(self@.client_images, client),
    {
        match self.client_images.get(&client) {
            Some(v) => copy_u64s(v),
            None => Vec::new(),
        }
    }

    /// The last media list `client` received from `server`, if any.
    pub fn image_list_of(&self, client: NodeId, server: NodeId) -> (r: Option<Vec<u64>>)
        ensures
            match r {
                Some(v) => self@.client_image_lists.contains_key(pair_key(client, server))
                    && v@ == self@.client_image_lists[pair_key(client, server)],
                None => !self@.client_image_lists.contains_key(pair_key(client, server)),
            },
    {
        let k = pair_key_of(client, server);
        match self.client_image_lists.get(&k) {
            Some(v) => Some(copy_u64s(v)),
            None => None,
        }
    }

    /// The last chatroom received from `server`, if any.
    pub fn chatroom_of(&self, server: NodeId) -> (r: Option<Vec<ChatMessage>>)
        ensures
            match r {
                Some(v) => self@.chatrooms.contains_key(server) && lines_view(v@) == self@.chatrooms[server],
                None => !self@.chatrooms.contains_key(server),
            },
    {
        match self.chatrooms_messages.get(&server) {
            Some(v) => Some(copy_lines(v)),
            None => None,
        }
    }

    fn push_server(&mut self, client: NodeId, server: NodeId)
        ensures
            final(self)@ == (AppStateView {
                registered_servers: old(self)@.registered_servers.insert(
                    client,
                    list_of(old(self)@.registered_servers, client).push(server),
                ),
                ..old(self)@
            }),
    {
        let mut v = match self.registered_servers.remove(&client) {
            Some(v) => v,
            None => Vec::new(),
        };
        v.push(server);
        self.registered_servers.insert(client, v);
        proof {
            assert(self@.registered_servers =~= old(self)@.registered_servers.insert(
                client,
                list_of(old(self)@.registered_servers, client).push(server),
            ));
        }
    }

    fn push_image(&mut self, client: NodeId, id: u64)
        ensures
            final(self)@ == (AppStateView {
                client_images: old(self)@.client_images.insert(client, list_of(old(self)@.client_images, client).push(id)),
                ..old(self)@
            }),
    {
        let mut v = match self.client_images.remove(&client) {
            Some(v) => v,
            None => Vec::new(),
        };
        v.push(id);
        self.client_images.insert(client, v);
        proof {
            assert(self@.client_images =~= old(self)@.client_images.insert(
                client,
                list_of(old(self)@.client_images, client).push(id),
            ));
        }
    }

    fn set_clients(&mut self, clients: &HashSet<NodeId>)
        ensures
            final(self)@ == (AppStateView { registered_clients: clients@, ..old(self)@ }),
    {
        self.registered_clients = copy_node_set(clients);
    }

    /// Updates the memory with what a client reported.
    pub fn on_client_event(&mut self, e: &ClientEvent)
        ensures
            final(self)@ == after_client_event(old(self)@, *e),
    {
        match e {
            ClientEvent::PacketReceived(p) => {
                if carries_flood_response(p) {
                    self.topology_needs_update = true;
                }
            },
            ClientEvent::MessageReceived { receiver, content } => match content {
                MessageContent::ChatResponse(ChatResponse::ClientList(c)) => self.set_clients(c),
                MessageContent::ChatResponse(ChatResponse::ClientRegistered(server)) => self.push_server(*receiver, *server),
                MessageContent::MediaResponse(MediaResponseForMessageContent::Media(id)) => self.push_image(*receiver, *id),
                MessageContent::MediaListWithServer(server, list) => {
                    let k = pair_key_of(*receiver, *server);
                    let l = copy_u64s(list);
                    let ghost lv = l@;
                    self.client_image_lists.insert(k, l);
                    proof {
                        assert(self@.client_image_lists =~= old(self)@.client_image_lists.insert(k, lv));
                    }
                },
                _ => {},
            },
            _ => {},
        }
    }

    /// Updates the memory with what a server reported.
    pub fn on_server_event(&mut self, e: &ServerEvent)
        ensures
            final(self)@ == after_server_event(old(self)@, *e),
    {
        match e {
            ServerEvent::PacketReceived(p) => {
                if carries_flood_response(p) {
                    self.topology_needs_update = true;
                }
            },
            ServerEvent::MessageReceived { content: MessageContent::WholeChatVecResponse(room), .. } => {
                let lines = copy_lines(&room.chatroom_messages);
                let ghost lv = lines_view(lines@);
                self.chatrooms_messages.insert(room.server_id, lines);
                proof {
                    assert(self@.chatrooms =~= old(self)@.chatrooms.insert(room.server_id, lv));
                }
            },
            _ => {},
        }
    }
}

} // verus!
