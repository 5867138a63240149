//! The simulation controller's view of the network: the neighbours of every
//! drone, client and server, and how commands change them.
use vstd::prelude::*;
use std::collections::HashMap;
use vstd::std_specs::iter::IteratorSpec;
use crate::packet::NodeId;
use crate::drone::{remove_id, contains_id, without, with_neighbor};
use crate::node::{push_decimal, decimal, digit_char};
use crate::text::{
    all_digits, chars_of, digits_value, first_word_at, first_word_span, is_digit, lemma_first_word_span, parse_u8,
    parse_u8_of, second_word, second_word_of, starts_with_literal, unsigned_digits, white_space,
};

verus! {

broadcast use vstd::std_specs::hash::group_hash_axioms;

/// The kind of a node of the network.
#[derive(Clone, Copy, Debug, PartialEq, Eq, Structural)]
pub enum NodeKind {
    Drone,
    Client,
    Server,
}

/// The neighbours of every node, by kind.
pub struct NetworkMap {
    drones: HashMap<NodeId, Vec<NodeId>>,
    clients: HashMap<NodeId, Vec<NodeId>>,
    servers: HashMap<NodeId, Vec<NodeId>>,
}

/// Mathematical model of the network map.
pub struct NetworkView {
    pub drones: Map<NodeId, Seq<NodeId>>,
    pub clients: Map<NodeId, Seq<NodeId>>,
    pub servers: Map<NodeId, Seq<NodeId>>,
}

pub open spec fn lists_view(m: Map<NodeId, Vec<NodeId>>) -> Map<NodeId, Seq<NodeId>> {
    m.map_values(|v: Vec<NodeId>| v@)
}

impl View for NetworkMap {
    type V = NetworkView;

    closed spec fn view(&self) -> NetworkView {
        NetworkView {
            drones: lists_view(self.drones@),
            clients: lists_view(self.clients@),
            servers: lists_view(self.servers@),
        }
    }
}

/// The kind a command for node `id` goes to: drones are looked up first,
/// then clients, then servers.
pub open spec fn kind_of(v: NetworkView, id: NodeId) -> Option<NodeKind> {
    if v.drones.contains_key(id) {
        Some(NodeKind::Drone)
    } else if v.clients.contains_key(id) {
        Some(NodeKind::Client)
    } else if v.servers.contains_key(id) {
        Some(NodeKind::Server)
    } else {
        None
    }
}

/// The map with the neighbour list of `node` changed by `f`, where `node`
/// sits in the kind that `kind_of` gives.
pub open spec fn change_list(v: NetworkView, node: NodeId, f: spec_fn(Seq<NodeId>) -> Seq<NodeId>) -> NetworkView {
    match kind_of(v, node) {
        Some(NodeKind::Drone) => NetworkView { drones: v.drones.insert(node, f(v.drones[node])), ..v },
        Some(NodeKind::Client) => NetworkView { clients: v.clients.insert(node, f(v.clients[node])), ..v },
        Some(NodeKind::Server) => NetworkView { servers: v.servers.insert(node, f(v.servers[node])), ..v },
        None => v,
    }
}

/// Adding `n` as a neighbour.
pub open spec fn add_fn(n: NodeId) -> spec_fn(Seq<NodeId>) -> Seq<NodeId> {
    |s: Seq<NodeId>| with_neighbor(s, n)
}

/// Taking `n` out of the neighbours.
pub open spec fn remove_fn(n: NodeId) -> spec_fn(Seq<NodeId>) -> Seq<NodeId> {
    |s: Seq<NodeId>| without(s, n)
}

/// After `node` was told to drop its channel to `neighbor`: when the
/// command went out (`sent`), `neighbor` leaves its list.
pub open spec fn after_remove_connection(v: NetworkView, node: NodeId, neighbor: NodeId, sent: bool) -> NetworkView {
    if sent {
        change_list(v, node, remove_fn(neighbor))
    } else {
        v
    }
}

/// The label of a node: its kind's name, a space, and its id.
pub open spec fn label(kind: NodeKind, id: NodeId) -> Seq<char> {
    kind_name(kind) + decimal(id as nat)
}

/// The name of a kind, followed by a space.
pub open spec fn kind_name(kind: NodeKind) -> Seq<char> {
    match kind {
        NodeKind::Drone => "Drone "@,
        NodeKind::Client => "Client "@,
        NodeKind::Server => "Server "@,
    }
}

impl NetworkMap {
    pub fn new() -> (r: Self)
        ensures
            r@.drones == Map::<NodeId, Seq<NodeId>>::empty(),
            r@.clients == Map::<NodeId, Seq<NodeId>>::empty(),
            r@.servers == Map::<NodeId, Seq<NodeId>>::empty(),
    {
        let r = NetworkMap { drones: HashMap::new(), clients: HashMap::new(), servers: HashMap::new() };
        proof {
            assert(r@.drones =~= Map::<NodeId, Seq<NodeId>>::empty());
            assert(r@.clients =~= Map::<NodeId, Seq<NodeId>>::empty());
            assert(r@.servers =~= Map::<NodeId, Seq<NodeId>>::empty());
        }
        r
    }

    /// Records node `id` of kind `kind` with its neighbours.
    pub fn insert(&mut self, kind: NodeKind, id: NodeId, neighbors: Vec<NodeId>)
        ensures
            final(self)@ == (match kind {
                NodeKind::Drone => NetworkView { drones: old(self)@.drones.insert(id, neighbors@), ..old(self)@ },
                NodeKind::Client => NetworkView { clients: old(self)@.clients.insert(id, neighbors@), ..old(self)@ },
                NodeKind::Server => NetworkView { servers: old(self)@.servers.insert(id, neighbors@), ..old(self)@ },
            }),
    {
        let ghost n = neighbors@;
        match kind {
            NodeKind::Drone => {
                self.drones.insert(id, neighbors);
                proof {
                    assert(self@.drones =~= old(self)@.drones.insert(id, n));
                }
            },
            NodeKind::Client => {
                self.clients.insert(id, neighbors);
                proof {
                    assert(self@.clients =~= old(self)@.clients.insert(id, n));
                }
            },
            NodeKind::Server => {
                self.servers.insert(id, neighbors);
                proof {
                    assert(self@.servers =~= old(self)@.servers.insert(id, n));
                }
            },
        }
    }

    /// The kind of node `id` (see `kind_of`).
    pub fn kind_of(&self, id: NodeId) -> (r: Option<NodeKind>)
        ensures
            r == kind_of(self@, id),
    {
        if self.drones.contains_key(&id) {
            Some(NodeKind::Drone)
        } else if self.clients.contains_key(&id) {
            Some(NodeKind::Client)
        } else if self.servers.contains_key(&id) {
            Some(NodeKind::Server)
        } else {
            None
        }
    }

    /// The neighbours of node `id`, if it is known.
    pub fn neighbors(&self, id: NodeId) -> (r: Option<Vec<NodeId>>)
        ensures
            match kind_of(self@, id) {
                Some(NodeKind::Drone) => r matches Some(v) && v@ == self@.drones[id],
                Some(NodeKind::Client) => r matches Some(v) && v@ == self@.clients[id],
                Some(NodeKind::Server) => r matches Some(v) && v@ == self@.servers[id],
                None => r is None,
            },
    {
        if let Some(v) = self.drones.get(&id) {
            Some(v.clone())
        } else if let Some(v) = self.clients.get(&id) {
            Some(v.clone())
        } else if let Some(v) = self.servers.get(&id) {
            Some(v.clone())
        } else {
            None
        }
    }

    fn change(&mut self, node: NodeId, add: bool, neighbor: NodeId)
        ensures
            final(self)@ == change_list(old(self)@, node, if add { add_fn(neighbor) } else { remove_fn(neighbor) }),
    {
        let ghost f = if add { add_fn(neighbor) } else { remove_fn(neighbor) };
        match self.neighbors(node) {
            Some(list) => {
                let new_list = if add {
                    if contains_id(&list, neighbor) {
                        list
                    } else {
                        let mut l = list;
                        l.push(neighbor);
                        l
                    }
                } else {
                    remove_id(&list, neighbor)
                };
                let ghost nl = new_list@;
                if self.drones.contains_key(&node) {
                    self.drones.insert(node, new_list);
                    proof {
                        assert(self@.drones =~= old(self)@.drones.insert(node, nl));
                    }
                } else if self.clients.contains_key(&node) {
                    self.clients.insert(node, new_list);
                    proof {
                        assert(self@.clients =~= old(self)@.clients.insert(node, nl));
                    }
                } else {
                    self.servers.insert(node, new_list);
                    proof {
                        assert(self@.servers =~= old(self)@.servers.insert(node, nl));
                    }
                }
            },
            None => {},
        }
    }

    /// Records whether node `node` was told to drop `neighbor`, and returns
    /// whether it was: `sent` is whether the command reached the node, and
    /// only a known node gets it.
    pub fn remove_connection(&mut self, node: NodeId, neighbor: NodeId, sent: bool) -> (r: bool)
        ensures
            r == (sent && kind_of(old(self)@, node) is Some),
            final(self)@ == after_remove_connection(old(self)@, node, neighbor, r),
    {
        if sent && self.kind_of(node).is_some() {
            self.change(node, false, neighbor);
            true
        } else {
            false
        }
    }

    /// A link between `n1` and `n2` was asked for; `added12` and `added21`
    /// tell whether each side took the new channel. Only when both did are
    /// the neighbour lists updated, and then the answer is `true`.
    pub fn add_sender(&mut self, n1: NodeId, n2: NodeId, added12: bool, added21: bool) -> (r: bool)
        ensures
            r == (added12 && added21),
            final(self)@ == (if r {
                change_list(change_list(old(self)@, n1, add_fn(n2)), n2, add_fn(n1))
            } else {
                old(self)@
            }),
    {
        if added12 && added21 {
            self.change(n1, true, n2);
            self.change(n2, true, n1);
            true
        } else {
            false
        }
    }

    /// A link between `n1` and `n2` was asked to go; `sent12` and `sent21`
    /// tell whether each side got the command. Each side that got it drops
    /// the other; the answer is whether both did.
    pub fn remove_sender(&mut self, n1: NodeId, n2: NodeId, sent12: bool, sent21: bool) -> (r: bool)
        ensures
            r == (sent12 && kind_of(old(self)@, n1) is Some && sent21 && kind_of(
                after_remove_connection(old(self)@, n1, n2, sent12 && kind_of(old(self)@, n1) is Some),
                n2,
            ) is Some),
            final(self)@ == after_remove_connection(
                after_remove_connection(old(self)@, n1, n2, sent12 && kind_of(old(self)@, n1) is Some),
                n2,
                n1,
                sent21 && kind_of(after_remove_connection(old(self)@, n1, n2, sent12 && kind_of(old(self)@, n1) is Some), n2) is Some,
            ),
    {
        let r1 = self.remove_connection(n1, n2, sent12);
        let r2 = self.remove_connection(n2, n1, sent21);
        r1 && r2
    }

    /// Takes drone `id` out of the map.
    pub fn remove_drone(&mut self, id: NodeId)
        ensures
            final(self)@ == (NetworkView { drones: old(self)@.drones.remove(id), ..old(self)@ }),
    {
        self.drones.remove(&id);
        proof {
            assert(self@.drones =~= old(self)@.drones.remove(id));
        }
    }

    /// Records the crash of drone `drone`: its neighbours `neighbors` were
    /// told to drop it, and `sent` tells, for each, whether the command went
    /// out.
    pub fn crash_drone(&mut self, drone: NodeId, neighbors: &Vec<NodeId>, sent: &Vec<bool>)
        requires
            neighbors.len() == sent.len(),
        ensures
            final(self)@ == after_crash(old(self)@, drone, neighbors@, sent@),
    {
        let mut i: usize = 0;
        proof {
            assert(neighbors@.skip(0) =~= neighbors@);
            assert(sent@.skip(0) =~= sent@);
        }
        while i < neighbors.len()
            invariant
                i <= neighbors.len(),
                neighbors.len() == sent.len(),
                after_crash(self@, drone, neighbors@.skip(i as int), sent@.skip(i as int))
                    == after_crash(old(self)@, drone, neighbors@, sent@),
            decreases neighbors.len() - i,
        {
            self.remove_connection(neighbors[i], drone, sent[i]);
            proof {
                let nb = neighbors@.skip(i as int);
                let sn = sent@.skip(i as int);
                assert(nb[0] == neighbors@[i as int]);
                assert(sn[0] == sent@[i as int]);
                assert(nb.drop_first() =~= neighbors@.skip(i + 1));
                assert(sn.drop_first() =~= sent@.skip(i + 1));
            }
            i = i + 1;
        }
        proof {
            assert(neighbors@.skip(i as int) =~= Seq::<NodeId>::empty());
        }
        self.remove_drone(drone);
    }

    /// The ids of the nodes of one kind, each once, in no set order.
    pub fn ids(&self, kind: NodeKind) -> (r: Vec<NodeId>)
        ensures
            r@.no_duplicates(),
            r@.to_set() == (match kind {
                NodeKind::Drone => self@.drones.dom(),
                NodeKind::Client => self@.clients.dom(),
                NodeKind::Server => self@.servers.dom(),
            }),
    {
        let m = match kind {
            NodeKind::Drone => &self.drones,
            NodeKind::Client => &self.clients,
            NodeKind::Server => &self.servers,
        };
        let ghost ks = vstd::std_specs::hash::spec_keys_iter(m).remaining();
        let mut r: Vec<NodeId> = Vec::new();
        for k in it: m.keys()
            invariant
                it.seq() == ks,
                r@ == it.seq().take(it.index() as int).unref(),
        {
            r.push(*k);
            proof {
                assert(r@ =~= it.seq().take(it.index() as int + 1).unref());
            }
        }
        proof {
            assert(r@ =~= ks.unref());
        }
        r
    }
}

/// The map after drone `drone` crashed: each node of `neighbors`, in order,
/// drops it when its command went out (`sent`, position by position), and
/// the drone leaves the map.
pub open spec fn after_crash(v: NetworkView, drone: NodeId, neighbors: Seq<NodeId>, sent: Seq<bool>) -> NetworkView
    decreases neighbors.len(),
{
    if neighbors.len() == 0 {
        NetworkView { drones: v.drones.remove(drone), ..v }
    } else {
        after_crash(
            after_remove_connection(v, neighbors[0], drone, sent[0] && kind_of(v, neighbors[0]) is Some),
            drone,
            neighbors.drop_first(),
            sent.drop_first(),
        )
    }
}

/// The label of node `id` of kind `kind` ("Drone 3", "Client 11", ...).
pub fn node_label(kind: NodeKind, id: NodeId) -> (r: String)
    ensures
        r@ == label(kind, id),
{
    let mut s = match kind {
        NodeKind::Drone => String::from_str("Drone "),
        NodeKind::Client => String::from_str("Client "),
        NodeKind::Server => String::from_str("Server "),
    };
    push_decimal(&mut s, id);
    s
}

/// The kind a label names by its start.
pub open spec fn label_kind(s: Seq<char>) -> Option<NodeKind> {
    if "Drone"@.is_prefix_of(s) {
        Some(NodeKind::Drone)
    } else if "Client"@.is_prefix_of(s) {
        Some(NodeKind::Client)
    } else if "Server"@.is_prefix_of(s) {
        Some(NodeKind::Server)
    } else {
        None
    }
}

/// The node a label names: the kind it starts with and the number in its
/// second word.
pub open spec fn label_node(s: Seq<char>) -> Option<(NodeKind, NodeId)> {
    match (label_kind(s), second_word(s)) {
        (Some(k), Some(w)) => match parse_u8(w) {
            Some(id) => Some((k, id)),
            None => None,
        },
        _ => None,
    }
}

/// The node a label ("Drone 3", "Client 11", ...) names, if it names one.
pub fn parse_label(name: &str) -> (r: Option<(NodeKind, NodeId)>)
    ensures
        r == label_node(name@),
{
    let s = chars_of(name);
    let kind = if starts_with_literal(&s, "Drone") {
        NodeKind::Drone
    } else if starts_with_literal(&s, "Client") {
        NodeKind::Client
    } else if starts_with_literal(&s, "Server") {
        NodeKind::Server
    } else {
        return None;
    };
    match second_word_of(&s) {
        Some(w) => match parse_u8_of(&w) {
            Some(id) => Some((kind, id)),
            None => None,
        },
        None => None,
    }
}

/// The decimal writing of a number is made of digits, does not start with
/// `+`, and reads back as the number.
proof fn lemma_decimal_reads_back(n: nat)
    ensures
        decimal(n).len() > 0,
        all_digits(decimal(n)),
        is_digit(decimal(n)[0]),
        digits_value(decimal(n)) == n,
    decreases n,
{
    if n < 10 {
        assert(decimal(n) == seq![digit_char(n as int)]);
        assert(decimal(n).drop_last() =~= Seq::<char>::empty());
        assert(digit_char(n as int) as nat == n + 48);
        assert(digits_value(decimal(n)) == digits_value(decimal(n).drop_last()) * 10 + (decimal(n).last() as nat
            - '0' as nat) as nat);
    } else {
        lemma_decimal_reads_back(n / 10);
        let d = decimal(n);
        assert(d == decimal(n / 10) + seq![digit_char((n % 10) as int)]);
        assert(d.drop_last() =~= decimal(n / 10));
        assert(d[0] == decimal(n / 10)[0]);
        assert(d.last() == digit_char((n % 10) as int));
        assert(digit_char((n % 10) as int) as nat == n % 10 + 48);
        assert(digits_value(d) == digits_value(d.drop_last()) * 10 + (d.last() as nat - '0' as nat) as nat);
        assert((n / 10) * 10 + n % 10 == n);
        assert forall|i: int| 0 <= i < d.len() implies is_digit(#[trigger] d[i]) by {
            if i < d.len() - 1 {
                assert(d[i] == decimal(n / 10)[i]);
            }
        }
    }
}

/// Every label reads back as the node it labels.
pub proof fn law_label_reads_back(kind: NodeKind, id: NodeId)
    ensures
        label_node(label(kind, id)) == Some((kind, id)),
{
    let s = label(kind, id);
    let k = kind_name(kind);
    let d = decimal(id as nat);
    lemma_decimal_reads_back(id as nat);
    reveal_strlit("Drone ");
    reveal_strlit("Client ");
    reveal_strlit("Server ");
    reveal_strlit("Drone");
    reveal_strlit("Client");
    reveal_strlit("Server");
    let n = (k.len() - 1) as int;
    assert(s == k + d);
    assert(forall|i: int| 0 <= i < k.len() ==> s[i] == k[i]);
    assert(forall|i: int| 0 <= i < d.len() ==> s[k.len() + i] == d[i]);
    assert forall|i: int| 0 <= i < d.len() implies !white_space(#[trigger] d[i]) by {
        assert(is_digit(d[i]));
    }
    // the first word is the kind's name, ended by the space
    assert(first_word_at(s, 0, n));
    lemma_first_word_span(s, 0, n);
    // the second word is the whole number
    let rest = s.subrange(n, s.len() as int);
    assert(rest =~= seq![' '] + d);
    assert(first_word_at(rest, 1, rest.len() as int));
    lemma_first_word_span(rest, 1, rest.len() as int);
    assert(rest.subrange(1, rest.len() as int) =~= d);
    assert(second_word(s) == Some(d));
    assert(unsigned_digits(d) == d);
    match kind {
        NodeKind::Drone => {
            assert("Drone"@ =~= s.subrange(0, 5));
        },
        NodeKind::Client => {
            assert(s.subrange(0, 5)[0] != "Drone"@[0]);
            assert("Client"@ =~= s.subrange(0, 6));
        },
        NodeKind::Server => {
            assert(s.subrange(0, 5)[0] != "Drone"@[0]);
            assert(s.subrange(0, 6)[0] != "Client"@[0]);
            assert("Server"@ =~= s.subrange(0, 6));
        },
    }
}

/// The neighbour list of `n`, in the kind that `kind_of` gives; empty for
/// an unknown node.
pub open spec fn list_of_node(v: NetworkView, n: NodeId) -> Seq<NodeId> {
    match kind_of(v, n) {
        Some(NodeKind::Drone) => v.drones[n],
        Some(NodeKind::Client) => v.clients[n],
        Some(NodeKind::Server) => v.servers[n],
        None => Seq::empty(),
    }
}

/// Filtering out a value that does not occur changes nothing.
proof fn lemma_without_absent(s: Seq<NodeId>, x: NodeId)
    requires
        !s.contains(x),
    ensures
        without(s, x) == s,
    decreases s.len(),
{
    if s.len() > 0 {
        let t = s.drop_last();
        assert(s =~= t.push(s.last()));
        assert(!t.contains(x)) by {
            if t.contains(x) {
                let k = choose|k: int| 0 <= k < t.len() && t[k] == x;
                assert(s[k] == x);
            }
        }
        lemma_without_absent(t, x);
        t.lemma_filter_push(s.last(), crate::drone::other_than(x));
    } else {
        assert(without(s, x) =~= s);
    }
}

/// Changing the list of `a` keeps every node's kind, and the list of every
/// other node.
proof fn lemma_change_keeps_others(v: NetworkView, a: NodeId, f: spec_fn(Seq<NodeId>) -> Seq<NodeId>, b: NodeId)
    ensures
        kind_of(change_list(v, a, f), b) == kind_of(v, b),
        b != a ==> list_of_node(change_list(v, a, f), b) == list_of_node(v, b),
        b == a && kind_of(v, a) is Some ==> list_of_node(change_list(v, a, f), a) == f(list_of_node(v, a)),
{
}

/// Linking two distinct known nodes that were not linked, then unlinking
/// them, with every command delivered, gives the network back.
pub proof fn law_link_then_unlink(v: NetworkView, n1: NodeId, n2: NodeId)
    requires
        n1 != n2,
        kind_of(v, n1) is Some,
        kind_of(v, n2) is Some,
        !list_of_node(v, n1).contains(n2),
        !list_of_node(v, n2).contains(n1),
    ensures
        after_remove_connection(
            after_remove_connection(change_list(change_list(v, n1, add_fn(n2)), n2, add_fn(n1)), n1, n2, true),
            n2,
            n1,
            true,
        ) == v,
{
    let v1 = change_list(v, n1, add_fn(n2));
    let v2 = change_list(v1, n2, add_fn(n1));
    let v3 = change_list(v2, n1, remove_fn(n2));
    let v4 = change_list(v3, n2, remove_fn(n1));
    lemma_change_keeps_others(v, n1, add_fn(n2), n1);
    lemma_change_keeps_others(v, n1, add_fn(n2), n2);
    lemma_change_keeps_others(v1, n2, add_fn(n1), n1);
    lemma_change_keeps_others(v1, n2, add_fn(n1), n2);
    lemma_change_keeps_others(v2, n1, remove_fn(n2), n1);
    lemma_change_keeps_others(v2, n1, remove_fn(n2), n2);
    lemma_change_keeps_others(v3, n2, remove_fn(n1), n1);
    lemma_change_keeps_others(v3, n2, remove_fn(n1), n2);
    let l1 = list_of_node(v, n1);
    let l2 = list_of_node(v, n2);
    assert(list_of_node(v2, n1) == l1.push(n2));
    assert(list_of_node(v2, n2) == l2.push(n1));
    l1.lemma_filter_push(n2, crate::drone::other_than(n2));
    l2.lemma_filter_push(n1, crate::drone::other_than(n1));
    lemma_without_absent(l1, n2);
    lemma_without_absent(l2, n1);
    assert(list_of_node(v4, n1) == l1);
    assert(list_of_node(v4, n2) == l2);
    assert(v4.drones =~= v.drones);
    assert(v4.clients =~= v.clients);
    assert(v4.servers =~= v.servers);
}


/// Law of the neighbour lists: adding `b` to the list of a known node `a`
/// puts it there, and adding it again changes nothing; taking `b` out
/// leaves it in no place of that list; the lists of the other nodes stay
/// as they were, and a node that is not known changes nothing.
pub proof fn law_neighbor_list_changes(v: NetworkView, a: NodeId, b: NodeId)
    ensures
        change_list(change_list(v, a, add_fn(b)), a, add_fn(b)) == change_list(v, a, add_fn(b)),
        kind_of(v, a) is Some ==> list_of_node(change_list(v, a, add_fn(b)), a).contains(b),
        !list_of_node(change_list(v, a, remove_fn(b)), a).contains(b),
        forall|c: NodeId| c != a ==> list_of_node(#[trigger] change_list(v, a, add_fn(b)), c) == list_of_node(v, c)
            && list_of_node(change_list(v, a, remove_fn(b)), c) == list_of_node(v, c),
        kind_of(v, a) is None ==> change_list(v, a, add_fn(b)) == v && change_list(v, a, remove_fn(b)) == v,
{
    let v1 = change_list(v, a, add_fn(b));
    let v2 = change_list(v1, a, add_fn(b));
    let w = change_list(v, a, remove_fn(b));
    lemma_change_keeps_others(v, a, add_fn(b), a);
    lemma_change_keeps_others(v1, a, add_fn(b), a);
    lemma_change_keeps_others(v, a, remove_fn(b), a);
    assert forall|c: NodeId| c != a implies list_of_node(#[trigger] change_list(v, a, add_fn(b)), c) == list_of_node(v, c)
        && list_of_node(change_list(v, a, remove_fn(b)), c) == list_of_node(v, c) by {
        lemma_change_keeps_others(v, a, add_fn(b), c);
        lemma_change_keeps_others(v, a, remove_fn(b), c);
    }
    if kind_of(v, a) is Some {
        let l = list_of_node(v, a);
        let l1 = with_neighbor(l, b);
        assert(list_of_node(v1, a) == l1);
        if !l.contains(b) {
            assert(l1[l.len() as int] == b);
        }
        assert(l1.contains(b));
        assert(with_neighbor(l1, b) == l1);
        assert(list_of_node(v2, a) == l1);
        assert(v2.drones =~= v1.drones);
        assert(v2.clients =~= v1.clients);
        assert(v2.servers =~= v1.servers);
        let l3 = without(l, b);
        assert(list_of_node(w, a) == l3);
        if l3.contains(b) {
            broadcast use vstd::seq_lib::group_filter_ensures;
            let k = choose|k: int| 0 <= k < l3.len() && l3[k] == b;
            assert(crate::drone::other_than(b)(l3[k]));
        }
    }
}


/// Whether drone `drone`'s crash is told to `n`: some position of
/// `neighbors` holds `n`, its command went out, and `n` is known.
pub open spec fn crash_reaches(v: NetworkView, neighbors: Seq<NodeId>, sent: Seq<bool>, n: NodeId) -> bool {
    kind_of(v, n) is Some && exists|j: int| 0 <= j < neighbors.len() && #[trigger] neighbors[j] == n && sent[j]
}

/// Taking `x` out twice is taking it out once.
proof fn lemma_without_twice(s: Seq<NodeId>, x: NodeId)
    ensures
        without(without(s, x), x) == without(s, x),
{
    let t = without(s, x);
    if t.contains(x) {
        broadcast use vstd::seq_lib::group_filter_ensures;
        let k = choose|k: int| 0 <= k < t.len() && t[k] == x;
        assert(crate::drone::other_than(x)(t[k]));
    }
    lemma_without_absent(t, x);
}

/// What a crash does to every node other than the drone: its kind stays,
/// and its list loses the drone exactly when the crash reached it.
proof fn lemma_after_crash(v: NetworkView, drone: NodeId, neighbors: Seq<NodeId>, sent: Seq<bool>, n: NodeId)
    requires
        neighbors.len() == sent.len(),
        n != drone,
    ensures
        !after_crash(v, drone, neighbors, sent).drones.contains_key(drone),
        kind_of(after_crash(v, drone, neighbors, sent), n) == kind_of(v, n),
        list_of_node(after_crash(v, drone, neighbors, sent), n) == (if crash_reaches(v, neighbors, sent, n) {
            without(list_of_node(v, n), drone)
        } else {
            list_of_node(v, n)
        }),
    decreases neighbors.len(),
{
    if neighbors.len() == 0 {
        let w = NetworkView { drones: v.drones.remove(drone), ..v };
        assert(kind_of(w, n) == kind_of(v, n));
        assert(list_of_node(w, n) == list_of_node(v, n));
    } else {
        let a = neighbors[0];
        let go = sent[0] && kind_of(v, a) is Some;
        let v1 = after_remove_connection(v, a, drone, go);
        lemma_change_keeps_others(v, a, remove_fn(drone), n);
        lemma_change_keeps_others(v, a, remove_fn(drone), a);
        lemma_after_crash(v1, drone, neighbors.drop_first(), sent.drop_first(), n);
        let l = list_of_node(v, n);
        lemma_without_twice(l, drone);
        let rest_reaches = crash_reaches(v1, neighbors.drop_first(), sent.drop_first(), n);
        let here = a == n && go;
        assert(crash_reaches(v, neighbors, sent, n) == (here || rest_reaches)) by {
            if crash_reaches(v, neighbors, sent, n) && !here {
                let j = choose|j: int| 0 <= j < neighbors.len() && #[trigger] neighbors[j] == n && sent[j];
                assert(j != 0);
                assert(neighbors.drop_first()[j - 1] == n);
            }
            if rest_reaches {
                let j = choose|j: int| 0 <= j < neighbors.len() - 1 && #[trigger] neighbors.drop_first()[j] == n && sent.drop_first()[j];
                assert(neighbors[j + 1] == n);
            }
            if here {
                assert(neighbors[0] == n);
            }
        }
    }
}

/// Law of crashing: after drone `drone` crashed, it is gone from the map;
/// every node other than it that the crash reached (listed in `neighbors`,
/// command sent, known) no longer lists it and lost nothing else; every
/// other node keeps its list.
pub proof fn law_crash_drops_the_drone(v: NetworkView, drone: NodeId, neighbors: Seq<NodeId>, sent: Seq<bool>)
    requires
        neighbors.len() == sent.len(),
    ensures
        !after_crash(v, drone, neighbors, sent).drones.contains_key(drone),
        forall|j: int| 0 <= j < neighbors.len() && sent[j] && neighbors[j] != drone && kind_of(v, neighbors[j]) is Some
            ==> !list_of_node(after_crash(v, drone, neighbors, sent), #[trigger] neighbors[j]).contains(drone),
        forall|n: NodeId| n != drone && crash_reaches(v, neighbors, sent, n)
            ==> list_of_node(#[trigger] after_crash(v, drone, neighbors, sent), n) == without(list_of_node(v, n), drone),
        forall|n: NodeId| n != drone && !neighbors.contains(n)
            ==> list_of_node(#[trigger] after_crash(v, drone, neighbors, sent), n) == list_of_node(v, n),
{
    let after = after_crash(v, drone, neighbors, sent);
    let other: NodeId = if drone == 0 { 1 } else { 0 };
    lemma_after_crash(v, drone, neighbors, sent, other);
    assert forall|j: int| 0 <= j < neighbors.len() && sent[j] && neighbors[j] != drone && kind_of(v, neighbors[j]) is Some
        implies !list_of_node(after, #[trigger] neighbors[j]).contains(drone) by {
        let n = neighbors[j];
        lemma_after_crash(v, drone, neighbors, sent, n);
        assert(crash_reaches(v, neighbors, sent, n));
        let t = without(list_of_node(v, n), drone);
        if t.contains(drone) {
            broadcast use vstd::seq_lib::group_filter_ensures;
            let k = choose|k: int| 0 <= k < t.len() && t[k] == drone;
            assert(crate::drone::other_than(drone)(t[k]));
        }
    }
    assert forall|n: NodeId| n != drone && crash_reaches(v, neighbors, sent, n)
        implies list_of_node(#[trigger] after_crash(v, drone, neighbors, sent), n) == without(list_of_node(v, n), drone) by {
        lemma_after_crash(v, drone, neighbors, sent, n);
    }
    assert forall|n: NodeId| n != drone && !neighbors.contains(n)
        implies list_of_node(#[trigger] after_crash(v, drone, neighbors, sent), n) == list_of_node(v, n) by {
        lemma_after_crash(v, drone, neighbors, sent, n);
        if crash_reaches(v, neighbors, sent, n) {
            let j = choose|j: int| 0 <= j < neighbors.len() && #[trigger] neighbors[j] == n && sent[j];
            assert(neighbors.contains(n));
        }
    }
}

} // verus!
