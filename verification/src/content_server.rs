//! The content server: it lists and serves the text or media files it holds.
use vstd::prelude::*;
use crate::packet::{NodeId, NodeType, Packet, PacketType};
use crate::topology::{Topology, updated_topology};
use crate::message::{
    ContentType, MediaRequest, MediaResponse, Message, ServerType, ServerTypeRequest,
    ServerTypeResponse, TextRequest, TextResponse, copy_u64s,
};
use crate::node::{NodeReaction, Outgoing, reaction_spec, react_to_packet, flood_start_packets, flood_start_view};
use crate::drone::{remove_id, without};
use crate::random::random_u64;

verus! {

/// The state of a content server, apart from its channels.
pub struct ContentServer {
    pub id: NodeId,
    connected_drone_ids: Vec<NodeId>,
    topology: Topology,
    content_type: ContentType,
    files: Vec<u64>,
}

/// Mathematical model of a content server.
pub struct ContentServerView {
    pub id: NodeId,
    pub connected_drone_ids: Seq<NodeId>,
    pub topology: Map<NodeId, Seq<NodeId>>,
    pub content_type: ContentType,
    pub files: Seq<u64>,
}

impl View for ContentServer {
    type V = ContentServerView;

    closed spec fn view(&self) -> ContentServerView {
        ContentServerView {
            id: self.id,
            connected_drone_ids: self.connected_drone_ids@,
            topology: self.topology@,
            content_type: self.content_type,
            files: self.files@,
        }
    }
}

/// Whether `id` occurs in `v`.
pub fn contains_u64(v: &Vec<u64>, id: u64) -> (r: bool)
    ensures
        r == v@.contains(id),
{
    let mut i: usize = 0;
    while i < v.len()
        invariant
            i <= v.len(),
            forall|j: int| 0 <= j < i ==> v@[j] != id,
        decreases v.len() - i,
    {
        if v[i] == id {
            return true;
        }
        i = i + 1;
    }
    false
}

impl ContentServer {
    pub fn new(id: NodeId, connected_drone_ids: Vec<NodeId>, topology: Topology, content_type: ContentType, files: Vec<u64>) -> (r: Self)
        ensures
            r@ == (ContentServerView {
                id,
                connected_drone_ids: connected_drone_ids@,
                topology: topology@,
                content_type,
                files: files@,
            }),
    {
        ContentServer { id, connected_drone_ids, topology, content_type, files }
    }

    pub fn topology(&self) -> (r: &Topology)
        ensures
            r@ == self@.topology,
    {
        &self.topology
    }

    /// Whether the server holds file `file_id`.
    pub fn has_file(&self, file_id: u64) -> (r: bool)
        ensures
            r == self@.files.contains(file_id),
    {
        contains_u64(&self.files, file_id)
    }

    /// Starts flood `flood_id`: the known paths are forgotten and one flood
    /// request goes to each connected drone.
    pub fn start_flood(&mut self, flood_id: u64) -> (r: Vec<(NodeId, Packet)>)
        ensures
            final(self)@ == (ContentServerView { topology: Map::empty(), ..old(self)@ }),
            r@.len() == old(self)@.connected_drone_ids.len(),
            forall|i: int| 0 <= i < r@.len() ==> #[trigger] r@[i].0 == old(self)@.connected_drone_ids[i]
                && r@[i].1@ == flood_start_view(old(self)@.id, NodeType::Server, old(self)@.connected_drone_ids[i], flood_id),
    {
        self.topology.clear();
        flood_start_packets(self.id, NodeType::Server, &self.connected_drone_ids, flood_id)
    }

    /// Forgets the connected drone `drone_id`.
    pub fn remove_drone(&mut self, drone_id: NodeId)
        ensures
            final(self)@ == (ContentServerView {
                connected_drone_ids: without(old(self)@.connected_drone_ids, drone_id),
                ..old(self)@
            }),
    {
        self.connected_drone_ids = remove_id(&self.connected_drone_ids, drone_id);
    }

    /// Reacts to a packet; a flood response updates the topology (a server
    /// keeps clients).
    pub fn handle_packet(&mut self, packet: &Packet) -> (r: NodeReaction)
        requires
            packet.pack_type matches PacketType::FloodResponse(resp) ==> resp.path_trace@.len() > 0,
        ensures
            match packet.pack_type {
                PacketType::FloodResponse(resp) => final(self)@ == (ContentServerView {
                    topology: updated_topology(old(self)@.topology, resp.path_trace@, false),
                    ..old(self)@
                }) && r is Nothing,
                _ => final(self)@ == old(self)@ && reaction_spec(r, packet@, old(self)@.id, NodeType::Server),
            },
    {
        match &packet.pack_type {
            PacketType::FloodResponse(resp) => {
                self.topology.update_with_flood_response(resp, false);
                NodeReaction::Nothing
            },
            _ => react_to_packet(packet, self.id, NodeType::Server),
        }
    }

    /// Answers a server type request in the session of the request.
    pub fn on_server_type_request(&self, request: &Message<ServerTypeRequest>) -> (r: Outgoing<ServerTypeResponse>)
        ensures
            r.target == request.source_id,
            r.message.source_id == self@.id,
            r.message.session_id == request.session_id,
            r.message.content == ServerTypeResponse::ServerType(ServerType::ContentServer(self@.content_type)),
    {
        Outgoing {
            target: request.source_id,
            message: Message {
                source_id: self.id,
                session_id: request.session_id,
                content: ServerTypeResponse::ServerType(ServerType::ContentServer(self.content_type)),
            },
        }
    }

    /// Answers a text request. A list request to a server with no file is
    /// answered with `NotFound`. For a single file, `file_content` is what
    /// reading it gave (`None` when it could not be read); it is used only if
    /// the server holds the file.
    pub fn on_text_request(&self, request: &Message<TextRequest>, file_content: Option<String>, fresh_session: u64) -> (r: Outgoing<TextResponse>)
        ensures
            r.target == request.source_id,
            r.message.source_id == self@.id,
            r.message.session_id == fresh_session,
            match request.content {
                TextRequest::TextList => if self@.files.len() == 0 {
                    r.message.content is NotFound
                } else {
                    r.message.content matches TextResponse::TextList(l) && l@ == self@.files
                },
                TextRequest::Text(f) => if self@.files.contains(f) && file_content is Some {
                    r.message.content matches TextResponse::Text(t) && t@ == file_content->0@
                } else {
                    r.message.content is NotFound
                },
            },
    {
        let content = match request.content {
            TextRequest::TextList => if self.files.len() == 0 {
                TextResponse::NotFound
            } else {
                TextResponse::TextList(copy_u64s(&self.files))
            },
            TextRequest::Text(f) => {
                if self.has_file(f) {
                    match file_content {
                        Some(t) => TextResponse::Text(t),
                        None => TextResponse::NotFound,
                    }
                } else {
                    TextResponse::NotFound
                }
            },
        };
        Outgoing { target: request.source_id, message: Message { source_id: self.id, session_id: fresh_session, content } }
    }

    /// Answers a media request. A list request to a server with no medium is
    /// answered with `NotFound`. For a single medium, `media_bytes` is what
    /// reading it gave (`None` when it could not be read, which sends the
    /// medium with no bytes); it is used only if the server holds the medium.
    pub fn on_media_request(&self, request: &Message<MediaRequest>, media_bytes: Option<Vec<u8>>, fresh_session: u64) -> (r: Outgoing<MediaResponse>)
        ensures
            r.target == request.source_id,
            r.message.source_id == self@.id,
            r.message.session_id == fresh_session,
            match request.content {
                MediaRequest::MediaList => if self@.files.len() == 0 {
                    r.message.content is NotFound
                } else {
                    r.message.content matches MediaResponse::MediaList(l) && l@ == self@.files
                },
                MediaRequest::Media(m) => if self@.files.contains(m) {
                    r.message.content matches MediaResponse::Media(id, bytes) && id == m && bytes@ == (match media_bytes {
                        Some(b) => b@,
                        None => Seq::<u8>::empty(),
                    })
                } else {
                    r.message.content is NotFound
                },
            },
    {
        let content = match request.content {
            MediaRequest::MediaList => if self.files.len() == 0 {
                MediaResponse::NotFound
            } else {
                MediaResponse::MediaList(copy_u64s(&self.files))
            },
            MediaRequest::Media(m) => {
                if self.has_file(m) {
                    match media_bytes {
                        Some(b) => MediaResponse::Media(m, b),
                        None => MediaResponse::Media(m, Vec::new()),
                    }
                } else {
                    MediaResponse::NotFound
                }
            },
        };
        Outgoing { target: request.source_id, message: Message { source_id: self.id, session_id: fresh_session, content } }
    }

    /// Answers a text request in a fresh random session (see `on_text_request`).
    pub fn send_text_response(&self, request: &Message<TextRequest>, file_content: Option<String>) -> (r: Outgoing<TextResponse>)
        ensures
            r.target == request.source_id,
            r.message.source_id == self@.id,
            match request.content {
                TextRequest::TextList => if self@.files.len() == 0 {
                    r.message.content is NotFound
                } else {
                    r.message.content matches TextResponse::TextList(l) && l@ == self@.files
                },
                TextRequest::Text(f) => if self@.files.contains(f) && file_content is Some {
                    r.message.content matches TextResponse::Text(t) && t@ == file_content->0@
                } else {
                    r.message.content is NotFound
                },
            },
    {
        self.on_text_request(request, file_content, random_u64())
    }

    /// Answers a media request in a fresh random session (see `on_media_request`).
    pub fn send_media_response(&self, request: &Message<MediaRequest>, media_bytes: Option<Vec<u8>>) -> (r: Outgoing<MediaResponse>)
        ensures
            r.target == request.source_id,
            r.message.source_id == self@.id,
            match request.content {
                MediaRequest::MediaList => if self@.files.len() == 0 {
                    r.message.content is NotFound
                } else {
                    r.message.content matches MediaResponse::MediaList(l) && l@ == self@.files
                },
                MediaRequest::Media(m) => if self@.files.contains(m) {
                    r.message.content matches MediaResponse::Media(id, bytes) && id == m && bytes@ == (match media_bytes {
                        Some(b) => b@,
                        None => Seq::<u8>::empty(),
                    })
                } else {
                    r.message.content is NotFound
                },
            },
    {
        self.on_media_request(request, media_bytes, random_u64())
    }

    /// Starts a flood whose id mixes `timestamp` with a random draw (see
    /// `start_flood`); returns the id and the flood requests.
    pub fn start_flood_request(&mut self, timestamp: u64) -> (r: (u64, Vec<(NodeId, Packet)>))
        ensures
            final(self)@ == (ContentServerView { topology: Map::empty(), ..old(self)@ }),
            r.1@.len() == old(self)@.connected_drone_ids.len(),
            forall|i: int| 0 <= i < r.1@.len() ==> #[trigger] r.1@[i].0 == old(self)@.connected_drone_ids[i]
                && r.1@[i].1@ == flood_start_view(old(self)@.id, NodeType::Server, old(self)@.connected_drone_ids[i], r.0),
    {
        let flood_id = timestamp ^ random_u64();
        let packets = self.start_flood(flood_id);
        (flood_id, packets)
    }
}

} // verus!
