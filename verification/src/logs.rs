//! The log of the simulation controller: one line per event reported by a
//! drone, a client or a server, and the filters of the log page.
use vstd::prelude::*;
use crate::packet::{NodeId, Packet, RouteView};
use crate::message::MessageContent;
use crate::node::{decimal, push_decimal};
use crate::text::{chars_of, contains_text, first_word, first_word_of, lowercase, text_contains, to_lowercase};

verus! {

/// The page shown by the controller's window.
#[derive(Clone, Copy, Debug, PartialEq, Eq, Structural)]
pub enum Screen {
    NetworkScreen,
    LogsScreen,
}

/// The tab shown in a client's window.
#[derive(Clone, Copy, Debug, PartialEq, Eq, Structural)]
pub enum ClientPopupScreen {
    Chatroom,
    Content,
}

/// Which lines of the log are shown.
pub struct LogFilters {
    /// Lines about packets (`[PACKET]`).
    pub show_events: bool,
    /// Lines about messages and commands (`[MESSAGE]`).
    pub show_commands: bool,
    pub show_drones: bool,
    pub show_clients: bool,
    pub show_servers: bool,
    /// Only lines whose text or timestamp contains this, ignoring case.
    pub search_text: String,
}

impl Default for LogFilters {
    /// Everything shown, no search.
    fn default() -> (r: Self)
        ensures
            r.show_events && r.show_commands && r.show_drones && r.show_clients && r.show_servers,
            r.search_text@ == Seq::<char>::empty(),
    {
        LogFilters {
            show_events: true,
            show_commands: true,
            show_drones: true,
            show_clients: true,
            show_servers: true,
            search_text: String::new(),
        }
    }
}

/// One line of the log.
pub struct LogEntry {
    pub timestamp: String,
    pub message: String,
}

/// What a drone reports to the simulation controller.
pub enum DroneEvent {
    PacketSent(Packet),
    PacketDropped(Packet),
    ControllerShortcut(Packet),
}

/// What a client reports to the simulation controller.
pub enum ClientEvent {
    PacketSent(Packet),
    PacketReceived(Packet),
    MessageSent { from: NodeId, to: NodeId, content: MessageContent },
    MessageReceived { receiver: NodeId, content: MessageContent },
    BrokenDroneDetected(NodeId),
}

/// What a server reports to the simulation controller.
pub enum ServerEvent {
    PacketSent(Packet),
    PacketReceived(Packet),
    MessageSent { from: NodeId, to: NodeId, content: MessageContent },
    MessageReceived { receiver: NodeId, content: MessageContent },
}

/// An event received by the simulation controller.
pub enum Event {
    Drone(DroneEvent),
    Client(ClientEvent),
    Server(ServerEvent),
}

/// The node a packet is at: its current hop, or `None` when the hop index
/// is past the route.
pub open spec fn hop_text(r: RouteView) -> Seq<char> {
    if r.hop_index < r.hops.len() {
        decimal(r.hops[r.hop_index as int] as nat)
    } else {
        "None"@
    }
}

/// The log line of `event`; `content` is the printed form of the message
/// content, for the events that carry one.
pub open spec fn log_text(event: Event, content: Seq<char>) -> Seq<char> {
    match event {
        Event::Drone(e) => match e {
            DroneEvent::PacketSent(p) => "[PACKET] Sent to Drone "@ + hop_text(p.routing_header@) + "."@,
            DroneEvent::PacketDropped(p) => "[PACKET] Dropped by Drone "@ + hop_text(p.routing_header@),
            DroneEvent::ControllerShortcut(p) => "[PACKET] Routed through Controller by Drone "@ + hop_text(p.routing_header@) + "."@,
        },
        Event::Client(e) => match e {
            ClientEvent::PacketSent(p) => "[PACKET] Sent by Client "@ + hop_text(p.routing_header@),
            ClientEvent::PacketReceived(p) => "[PACKET] Received by Client: "@ + hop_text(p.routing_header@) + "."@,
            ClientEvent::MessageSent { from, to, .. } => "[MESSAGE] Sent by Client: "@ + decimal(from as nat) + " to "@
                + decimal(to as nat) + ", content: "@ + content,
            ClientEvent::MessageReceived { receiver, .. } => "[MESSAGE] Received by Client: "@ + decimal(receiver as nat)
                + ", content: "@ + content,
            ClientEvent::BrokenDroneDetected(id) => "[MESSAGE] Found Broken Drone, id: "@ + decimal(id as nat),
        },
        Event::Server(e) => match e {
            ServerEvent::PacketSent(p) => "[PACKET] Sent by Server: "@ + hop_text(p.routing_header@),
            ServerEvent::PacketReceived(p) => "[PACKET] Received by Server: "@ + hop_text(p.routing_header@),
            ServerEvent::MessageSent { from, to, .. } => "[MESSAGE] Sent by Server: "@ + decimal(from as nat) + " to "@
                + decimal(to as nat) + ", content: "@ + content,
            ServerEvent::MessageReceived { receiver, .. } => "[MESSAGE] Received by Server: "@ + decimal(receiver as nat)
                + ", content: "@ + content,
        },
    }
}

/// `prefix`, then the current hop of `packet`, then `suffix`.
fn packet_line(prefix: &str, packet: &Packet, suffix: &str) -> (r: String)
    ensures
        r@ == prefix@ + hop_text(packet.routing_header@) + suffix@,
{
    let mut s = String::from_str(prefix);
    let route = &packet.routing_header;
    if route.hop_index < route.hops.len() {
        push_decimal(&mut s, route.hops[route.hop_index]);
    } else {
        s.append("None");
    }
    s.append(suffix);
    s
}

/// `head`, the decimal `a`, then `content` after `, content: ` (with
/// ` to ` and the decimal `b` in between when `b` is given).
fn message_line(head: &str, a: NodeId, b: Option<NodeId>, content: &str) -> (r: String)
    ensures
        r@ == head@ + decimal(a as nat) + match b {
            Some(b) => " to "@ + decimal(b as nat),
            None => Seq::<char>::empty(),
        } + ", content: "@ + content@,
{
    let mut s = String::from_str(head);
    push_decimal(&mut s, a);
    match b {
        Some(b) => {
            s.append(" to ");
            push_decimal(&mut s, b);
        },
        None => {},
    }
    s.append(", content: ");
    s.append(content);
    proof {
        match b {
            Some(b) => {},
            None => {
                assert(head@ + decimal(a as nat) + Seq::<char>::empty() =~= head@ + decimal(a as nat));
            },
        }
    }
    s
}

/// The log line of `event`; `content` is the printed form of the message
/// content, used by the events that carry one.
pub fn log_message(event: &Event, content: &str) -> (r: String)
    ensures
        r@ == log_text(*event, content@),
{
    match event {
        Event::Drone(e) => match e {
            DroneEvent::PacketSent(p) => packet_line("[PACKET] Sent to Drone ", p, "."),
            DroneEvent::PacketDropped(p) => {
                let r = packet_line("[PACKET] Dropped by Drone ", p, "");
                proof {
                    reveal_strlit("");
                    assert(r@ =~= "[PACKET] Dropped by Drone "@ + hop_text(p.routing_header@));
                }
                r
            },
            DroneEvent::ControllerShortcut(p) => packet_line("[PACKET] Routed through Controller by Drone ", p, "."),
        },
        Event::Client(e) => match e {
            ClientEvent::PacketSent(p) => {
                let r = packet_line("[PACKET] Sent by Client ", p, "");
                proof {
                    reveal_strlit("");
                    assert(r@ =~= "[PACKET] Sent by Client "@ + hop_text(p.routing_header@));
                }
                r
            },
            ClientEvent::PacketReceived(p) => packet_line("[PACKET] Received by Client: ", p, "."),
            ClientEvent::MessageSent { from, to, .. } => message_line("[MESSAGE] Sent by Client: ", *from, Some(*to), content),
            ClientEvent::MessageReceived { receiver, .. } => message_line("[MESSAGE] Received by Client: ", *receiver, None, content),
            ClientEvent::BrokenDroneDetected(id) => {
                let mut s = String::from_str("[MESSAGE] Found Broken Drone, id: ");
                push_decimal(&mut s, *id);
                s
            },
        },
        Event::Server(e) => match e {
            ServerEvent::PacketSent(p) => {
                let r = packet_line("[PACKET] Sent by Server: ", p, "");
                proof {
                    reveal_strlit("");
                    assert(r@ =~= "[PACKET] Sent by Server: "@ + hop_text(p.routing_header@));
                }
                r
            },
            ServerEvent::PacketReceived(p) => {
                let r = packet_line("[PACKET] Received by Server: ", p, "");
                proof {
                    reveal_strlit("");
                    assert(r@ =~= "[PACKET] Received by Server: "@ + hop_text(p.routing_header@));
                }
                r
            },
            ServerEvent::MessageSent { from, to, .. } => message_line("[MESSAGE] Sent by Server: ", *from, Some(*to), content),
            ServerEvent::MessageReceived { receiver, .. } => message_line("[MESSAGE] Received by Server: ", *receiver, None, content),
        },
    }
}

/// Appends the line of `event`, stamped with `timestamp`, to the log.
pub fn logs(log: &mut Vec<LogEntry>, event: &Event, content: &str, timestamp: String)
    ensures
        final(log)@.len() == old(log)@.len() + 1,
        forall|i: int| 0 <= i < old(log)@.len() ==> final(log)@[i] == old(log)@[i],
        final(log)@.last().timestamp == timestamp,
        final(log)@.last().message@ == log_text(*event, content@),
{
    let message = log_message(event, content);
    log.push(LogEntry { timestamp, message });
}

/// A command given to a drone from its window, as logged.
#[derive(Clone, Copy, Debug, PartialEq, Eq, Structural)]
pub enum DroneCommandLog {
    AddedSender(NodeId),
    RemovedSender(NodeId),
    Crashing,
}

/// The log line of a command given to the drone labelled `name`.
pub open spec fn command_text(c: DroneCommandLog, name: Seq<char>) -> Seq<char> {
    match c {
        DroneCommandLog::AddedSender(s) => "[COMMAND] Added sender "@ + decimal(s as nat) + " to "@ + name,
        DroneCommandLog::RemovedSender(s) => "[COMMAND] Removed sender "@ + decimal(s as nat) + " from "@ + name,
        DroneCommandLog::Crashing => "[COMMAND] Crashing "@ + name,
    }
}

/// The log line of a command given to the drone labelled `name`.
pub fn command_message(c: DroneCommandLog, name: &str) -> (r: String)
    ensures
        r@ == command_text(c, name@),
{
    match c {
        DroneCommandLog::AddedSender(sender) => {
            let mut s = String::from_str("[COMMAND] Added sender ");
            push_decimal(&mut s, sender);
            s.append(" to ");
            s.append(name);
            s
        },
        DroneCommandLog::RemovedSender(sender) => {
            let mut s = String::from_str("[COMMAND] Removed sender ");
            push_decimal(&mut s, sender);
            s.append(" from ");
            s.append(name);
            s
        },
        DroneCommandLog::Crashing => {
            let mut s = String::from_str("[COMMAND] Crashing ");
            s.append(name);
            s
        },
    }
}

/// Whether the line `e` passes the filters `f`: its kind (by its first word),
/// the node kind it names first among drone, client and server, and the
/// search text, which must occur in its text or its timestamp, ignoring case.
pub open spec fn shown(f: &LogFilters, e: &LogEntry) -> bool {
    let m = e.message@;
    let matches_type = match first_word(m) {
        Some(w) => if w == "[PACKET]"@ {
            f.show_events
        } else if w == "[MESSAGE]"@ {
            f.show_commands
        } else {
            true
        },
        None => true,
    };
    let matches_component = if contains_text(m, "Drone"@) {
        f.show_drones
    } else if contains_text(m, "Client"@) {
        f.show_clients
    } else if contains_text(m, "Server"@) {
        f.show_servers
    } else {
        true
    };
    let search = lowercase(f.search_text@);
    let matches_search = f.search_text@.len() == 0 || contains_text(lowercase(m), search)
        || contains_text(lowercase(e.timestamp@), search);
    matches_type && matches_component && matches_search
}

/// With every kind and component shown and no search text, as the default
/// filters are, every line is shown.
pub proof fn law_default_filters_show_everything(f: &LogFilters, e: &LogEntry)
    requires
        f.show_events && f.show_commands && f.show_drones && f.show_clients && f.show_servers,
        f.search_text@.len() == 0,
    ensures
        shown(f, e),
{
}

/// A shown line, under a search, contains the search text in its text or
/// its timestamp, ignoring case.
pub proof fn law_search_is_honoured(f: &LogFilters, e: &LogEntry)
    requires
        shown(f, e),
        f.search_text@.len() > 0,
    ensures
        contains_text(lowercase(e.message@), lowercase(f.search_text@)) || contains_text(
            lowercase(e.timestamp@),
            lowercase(f.search_text@),
        ),
{
}

/// The node kinds a line names: drones, clients, servers.
pub open spec fn names(e: &LogEntry, kind: Seq<char>) -> bool {
    contains_text(e.message@, kind)
}

/// Law of the component filters, for clients: with two filters that differ
/// only in that `g` hides clients and `f` shows them, `g` shows exactly the
/// lines `f` shows that do not name a client without naming a drone.
pub proof fn law_hiding_clients(f: &LogFilters, g: &LogFilters, e: &LogEntry)
    requires
        f.show_clients,
        !g.show_clients,
        g.show_events == f.show_events,
        g.show_commands == f.show_commands,
        g.show_drones == f.show_drones,
        g.show_servers == f.show_servers,
        g.search_text@ == f.search_text@,
    ensures
        shown(g, e) == (shown(f, e) && !(names(e, "Client"@) && !names(e, "Drone"@))),
{
}

/// Law of the component filters, for drones: hiding drones hides exactly
/// the lines that name a drone.
pub proof fn law_hiding_drones(f: &LogFilters, g: &LogFilters, e: &LogEntry)
    requires
        f.show_drones,
        !g.show_drones,
        g.show_events == f.show_events,
        g.show_commands == f.show_commands,
        g.show_clients == f.show_clients,
        g.show_servers == f.show_servers,
        g.search_text@ == f.search_text@,
    ensures
        shown(g, e) == (shown(f, e) && !names(e, "Drone"@)),
{
}

/// Law of the component filters, for servers: hiding servers hides exactly
/// the lines that name a server and neither a drone nor a client.
pub proof fn law_hiding_servers(f: &LogFilters, g: &LogFilters, e: &LogEntry)
    requires
        f.show_servers,
        !g.show_servers,
        g.show_events == f.show_events,
        g.show_commands == f.show_commands,
        g.show_drones == f.show_drones,
        g.show_clients == f.show_clients,
        g.search_text@ == f.search_text@,
    ensures
        shown(g, e) == (shown(f, e) && !(names(e, "Server"@) && !names(e, "Drone"@) && !names(e, "Client"@))),
{
}

/// A shown line that names a client and no drone is shown only while
/// clients are shown; one that names a drone only while drones are shown;
/// one that names a server and neither of the others only while servers are.
pub proof fn law_shown_lines_follow_their_kind(f: &LogFilters, e: &LogEntry)
    requires
        shown(f, e),
    ensures
        names(e, "Drone"@) ==> f.show_drones,
        names(e, "Client"@) && !names(e, "Drone"@) ==> f.show_clients,
        names(e, "Server"@) && !names(e, "Drone"@) && !names(e, "Client"@) ==> f.show_servers,
{
}

/// Whether `s` is the text of `lit`.
fn same_text(s: &Vec<char>, lit: &str) -> (r: bool)
    ensures
        r == (s@ == lit@),
{
    let l = chars_of(lit);
    if s.len() != l.len() {
        return false;
    }
    let mut i: usize = 0;
    while i < s.len()
        invariant
            s.len() == l.len(),
            l@ == lit@,
            i <= s.len(),
            forall|k: int| 0 <= k < i ==> s@[k] == l@[k],
        decreases s.len() - i,
    {
        if s[i] != l[i] {
            return false;
        }
        i = i + 1;
    }
    proof {
        assert(s@ =~= l@);
    }
    true
}

/// Whether `hay` contains the text of `lit`.
fn contains_literal(hay: &Vec<char>, lit: &str) -> (r: bool)
    ensures
        r == contains_text(hay@, lit@),
{
    let needle = chars_of(lit);
    text_contains(hay, &needle)
}

/// Whether the line `e` passes the filters `f`.
pub fn is_shown(f: &LogFilters, e: &LogEntry) -> (r: bool)
    ensures
        r == shown(f, e),
{
    let m = chars_of(e.message.as_str());
    let matches_type = match first_word_of(&m) {
        Some(w) => if same_text(&w, "[PACKET]") {
            f.show_events
        } else if same_text(&w, "[MESSAGE]") {
            f.show_commands
        } else {
            true
        },
        None => true,
    };
    let matches_component = if contains_literal(&m, "Drone") {
        f.show_drones
    } else if contains_literal(&m, "Client") {
        f.show_clients
    } else if contains_literal(&m, "Server") {
        f.show_servers
    } else {
        true
    };
    let matches_search = if f.search_text.as_str().unicode_len() == 0 {
        true
    } else {
        let search = chars_of(to_lowercase(f.search_text.as_str()).as_str());
        let lower_message = chars_of(to_lowercase(e.message.as_str()).as_str());
        if text_contains(&lower_message, &search) {
            true
        } else {
            let lower_time = chars_of(to_lowercase(e.timestamp.as_str()).as_str());
            text_contains(&lower_time, &search)
        }
    };
    matches_type && matches_component && matches_search
}

/// The lines of the log that pass the filters, in order.
pub fn filtered_logs<'a>(log: &'a Vec<LogEntry>, f: &LogFilters) -> (r: Vec<&'a LogEntry>)
    ensures
        r@.len() <= log@.len(),
        r@.map_values(|e: &LogEntry| *e) == log@.filter(|e: LogEntry| shown(f, &e)),
{
    let ghost p = |e: LogEntry| shown(f, &e);
    let mut r: Vec<&'a LogEntry> = Vec::new();
    let mut i: usize = 0;
    while i < log.len()
        invariant
            i <= log.len(),
            p == (|e: LogEntry| shown(f, &e)),
            r@.map_values(|e: &LogEntry| *e) == log@.subrange(0, i as int).filter(p),
        decreases log.len() - i,
    {
        proof {
            assert(log@.subrange(0, i + 1) =~= log@.subrange(0, i as int).push(log@[i as int]));
            log@.subrange(0, i as int).lemma_filter_push(log@[i as int], p);
        }
        if is_shown(f, &log[i]) {
            let ghost before = r@;
            r.push(&log[i]);
            proof {
                assert(r@.map_values(|e: &LogEntry| *e) =~= before.map_values(|e: &LogEntry| *e).push(log@[i as int]));
            }
        }
        i = i + 1;
    }
    proof {
        assert(log@.subrange(0, log@.len() as int) =~= log@);
        broadcast use vstd::seq_lib::group_filter_ensures;
    }
    r
}

} // verus!
