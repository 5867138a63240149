//! The messages that clients and servers exchange, and the contents they
//! report to the simulation controller.
use vstd::prelude::*;
use vstd::std_specs::iter::IteratorSpec;
use std::collections::HashSet;
use crate::packet::NodeId;

verus! {

/// The kind of content a content server offers.
#[derive(Clone, Copy, Debug, PartialEq, Eq, Structural)]
pub enum ContentType {
    Text,
    Media,
}

/// The role of a server.
#[derive(Clone, Copy, Debug, PartialEq, Eq, Structural)]
pub enum ServerType {
    ContentServer(ContentType),
    CommunicationServer,
}

/// A message: who sent it, in which session, and what it says.
#[derive(Clone, Debug, PartialEq, Eq)]
pub struct Message<M> {
    pub source_id: NodeId,
    pub session_id: u64,
    pub content: M,
}

#[derive(Clone, Copy, Debug, PartialEq, Eq, Structural)]
pub enum TextRequest {
    TextList,
    Text(u64),
}

#[derive(Clone, Copy, Debug, PartialEq, Eq, Structural)]
pub enum MediaRequest {
    MediaList,
    Media(u64),
}

#[derive(Clone, Debug, PartialEq, Eq)]
pub enum ChatRequest {
    ClientList,
    Register(NodeId),
    SendMessage { from: NodeId, message: String },
}

#[derive(Clone, Debug, PartialEq, Eq)]
pub enum TextResponse {
    TextList(Vec<u64>),
    Text(String),
    NotFound,
}

#[derive(Clone, Debug, PartialEq, Eq)]
pub enum MediaResponse {
    MediaList(Vec<u64>),
    Media(u64, Vec<u8>),
    NotFound,
}

#[derive(Debug, PartialEq, Eq)]
pub enum ChatResponse {
    /// The registered clients.
    ClientList(HashSet<NodeId>),
    MessageFrom { from: NodeId, message: Vec<u8> },
    MessageSent,
    ClientNotRegistered,
    ClientRegistered(NodeId),
}

/// A copy of a set of node ids.
pub fn copy_node_set(v: &HashSet<NodeId>) -> (r: HashSet<NodeId>)
    ensures
        r@ == v@,
{
    let ghost all = vstd::std_specs::hash::spec_hash_keys_iter(v).remaining();
    let mut r: HashSet<NodeId> = HashSet::new();
    for x in it: v.iter()
        invariant
            it.seq() == all,
            all.unref().to_set() == v@,
            r@ == it.seq().take(it.index() as int).unref().to_set(),
    {
        proof {
            assert(it.seq().take(it.index() as int + 1).unref() =~= it.seq().take(it.index() as int).unref().push(*x));
            it.seq().take(it.index() as int).unref().lemma_push_to_set_commute(*x);
        }
        r.insert(*x);
    }
    proof {
        assert(all.take(all.len() as int) =~= all);
    }
    r
}

impl Clone for ChatResponse {
    fn clone(&self) -> (r: Self)
        ensures
            self matches ChatResponse::ClientList(l) ==> (r matches ChatResponse::ClientList(k) && k@ == l@),
    {
        match self {
            ChatResponse::ClientList(l) => ChatResponse::ClientList(copy_node_set(l)),
            ChatResponse::MessageFrom { from, message } => ChatResponse::MessageFrom { from: *from, message: message.clone() },
            ChatResponse::MessageSent => ChatResponse::MessageSent,
            ChatResponse::ClientNotRegistered => ChatResponse::ClientNotRegistered,
            ChatResponse::ClientRegistered(s) => ChatResponse::ClientRegistered(*s),
        }
    }
}

#[derive(Clone, Copy, Debug, PartialEq, Eq, Structural)]
pub enum ServerTypeRequest {
    GetServerType,
}

#[derive(Clone, Copy, Debug, PartialEq, Eq, Structural)]
pub enum ServerTypeResponse {
    ServerType(ServerType),
}

/// A media response as reported to the simulation controller: the bytes of
/// a medium are left out.
#[derive(Clone, Debug, PartialEq, Eq)]
pub enum MediaResponseForMessageContent {
    MediaList(Vec<u64>),
    Media(u64),
    NotFound,
}

/// One line of a chatroom.
#[derive(Clone, Debug, PartialEq, Eq)]
pub struct ChatMessage {
    pub sender_id: NodeId,
    pub content: String,
}

/// The whole chatroom of a communication server.
#[derive(Clone, Debug, PartialEq, Eq)]
pub struct Chatroom {
    pub server_id: NodeId,
    pub chatroom_messages: Vec<ChatMessage>,
}

/// The content of a message, as reported to the simulation controller.
#[derive(Clone, Debug, PartialEq, Eq)]
pub enum MessageContent {
    ServerTypeRequest(ServerTypeRequest),
    ServerTypeResponse(ServerTypeResponse),
    TextRequest(TextRequest),
    TextResponse(TextResponse),
    WholeChatVecResponse(Chatroom),
    ChatRequest(ChatRequest),
    ChatResponse(ChatResponse),
    MediaRequest(MediaRequest),
    MediaResponse(MediaResponseForMessageContent),
    MediaListWithServer(NodeId, Vec<u64>),
}

/// A request, with the name of its kind.
pub trait Request {
    spec fn request_name(&self) -> Seq<char>;

    fn request_type(&self) -> (r: String)
        ensures
            r@ == self.request_name(),
    ;
}

/// A response, with the name of its kind.
pub trait Response {
    spec fn response_name(&self) -> Seq<char>;

    fn response_type(&self) -> (r: String)
        ensures
            r@ == self.response_name(),
    ;
}

impl Request for TextRequest {
    open spec fn request_name(&self) -> Seq<char> {
        match self {
            TextRequest::TextList => "TextList"@,
            TextRequest::Text(_) => "Text"@,
        }
    }

    fn request_type(&self) -> (r: String) {
        match self {
            TextRequest::TextList => "TextList".to_string(),
            TextRequest::Text(_) => "Text".to_string(),
        }
    }
}

impl Request for MediaRequest {
    open spec fn request_name(&self) -> Seq<char> {
        match self {
            MediaRequest::MediaList => "MediaList"@,
            MediaRequest::Media(_) => "Media"@,
        }
    }

    fn request_type(&self) -> (r: String) {
        match self {
            MediaRequest::MediaList => "MediaList".to_string(),
            MediaRequest::Media(_) => "Media".to_string(),
        }
    }
}

impl Request for ChatRequest {
    open spec fn request_name(&self) -> Seq<char> {
        match self {
            ChatRequest::ClientList => "ClientList"@,
            ChatRequest::Register(_) => "Register"@,
            ChatRequest::SendMessage { .. } => "SendMessage"@,
        }
    }

    fn request_type(&self) -> (r: String) {
        match self {
            ChatRequest::ClientList => "ClientList".to_string(),
            ChatRequest::Register(_) => "Register".to_string(),
            ChatRequest::SendMessage { .. } => "SendMessage".to_string(),
        }
    }
}

impl Request for ServerTypeRequest {
    open spec fn request_name(&self) -> Seq<char> {
        "GetServerType"@
    }

    fn request_type(&self) -> (r: String) {
        "GetServerType".to_string()
    }
}

impl Response for TextResponse {
    open spec fn response_name(&self) -> Seq<char> {
        match self {
            TextResponse::TextList(_) => "TextList"@,
            TextResponse::Text(_) => "Text"@,
            TextResponse::NotFound => "NotFound"@,
        }
    }

    fn response_type(&self) -> (r: String) {
        match self {
            TextResponse::TextList(_) => "TextList".to_string(),
            TextResponse::Text(_) => "Text".to_string(),
            TextResponse::NotFound => "NotFound".to_string(),
        }
    }
}

impl Response for MediaResponse {
    open spec fn response_name(&self) -> Seq<char> {
        match self {
            MediaResponse::MediaList(_) => "MediaList"@,
            MediaResponse::Media(_, _) => "Media"@,
            MediaResponse::NotFound => "NotFound"@,
        }
    }

    fn response_type(&self) -> (r: String) {
        match self {
            MediaResponse::MediaList(_) => "MediaList".to_string(),
            MediaResponse::Media(_, _) => "Media".to_string(),
            MediaResponse::NotFound => "NotFound".to_string(),
        }
    }
}

impl Response for ChatResponse {
    open spec fn response_name(&self) -> Seq<char> {
        match self {
            ChatResponse::ClientList(_) => "ClientList"@,
            ChatResponse::MessageFrom { .. } => "MessageFrom"@,
            ChatResponse::MessageSent => "MessageSent"@,
            ChatResponse::ClientNotRegistered => "ClientNotRegistered"@,
            ChatResponse::ClientRegistered(_) => "ClientRegistered"@,
        }
    }

    fn response_type(&self) -> (r: String) {
        match self {
            ChatResponse::ClientList(_) => "ClientList".to_string(),
            ChatResponse::MessageFrom { .. } => "MessageFrom".to_string(),
            ChatResponse::MessageSent => "MessageSent".to_string(),
            ChatResponse::ClientNotRegistered => "ClientNotRegistered".to_string(),
            ChatResponse::ClientRegistered(_) => "ClientRegistered".to_string(),
        }
    }
}

impl Response for ServerTypeResponse {
    open spec fn response_name(&self) -> Seq<char> {
        "GetServerType"@
    }

    fn response_type(&self) -> (r: String) {
        "GetServerType".to_string()
    }
}

/// A copy of a list of ids.
pub fn copy_u64s(v: &Vec<u64>) -> (r: Vec<u64>)
    ensures
        r@ == v@,
{
    v.clone()
}

impl MediaResponseForMessageContent {
    /// The media response without the bytes of the medium.
    pub fn new(media_response: MediaResponse) -> (r: Self)
        ensures
            match media_response {
                MediaResponse::MediaList(l) => r matches MediaResponseForMessageContent::MediaList(l2) && l2@ == l@,
                MediaResponse::Media(id, _) => r == MediaResponseForMessageContent::Media(id),
                MediaResponse::NotFound => r == MediaResponseForMessageContent::NotFound,
            },
    {
        match media_response {
            MediaResponse::MediaList(l) => MediaResponseForMessageContent::MediaList(l),
            MediaResponse::Media(id, _) => MediaResponseForMessageContent::Media(id),
            MediaResponse::NotFound => MediaResponseForMessageContent::NotFound,
        }
    }
}

} // verus!
