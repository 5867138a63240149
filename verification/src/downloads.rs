//! What each client knows is available on each server, and which of it has
//! been downloaded.
use vstd::prelude::*;
use std::collections::{HashMap, HashSet};
use vstd::std_specs::iter::IteratorSpec;
use crate::packet::NodeId;

verus! {

broadcast use vstd::std_specs::hash::group_hash_axioms;

/// The key of the pair (client, server).
pub open spec fn pair_key(client: NodeId, server: NodeId) -> u16 {
    (client as int * 256 + server as int) as u16
}

fn pair_key_exec(client: NodeId, server: NodeId) -> (r: u16)
    ensures
        r == pair_key(client, server),
{
    (client as u16) * 256 + (server as u16)
}

/// For each (client, server) pair the indices the client knows of on that
/// server, and for each known index whether it has been downloaded.
pub struct ClientsDownloadedData {
    data: HashMap<u16, HashSet<u64>>,
    known_data: HashMap<u64, bool>,
}

/// Mathematical model of the downloaded data.
pub struct DownloadsView {
    pub data: Map<u16, Set<u64>>,
    pub known: Map<u64, bool>,
}

impl View for ClientsDownloadedData {
    type V = DownloadsView;

    closed spec fn view(&self) -> DownloadsView {
        DownloadsView { data: self.data@.map_values(|s: HashSet<u64>| s@), known: self.known_data@ }
    }
}

/// The indices known for key `k` (none if the pair was never seen).
pub open spec fn known_for(v: DownloadsView, k: u16) -> Set<u64> {
    if v.data.contains_key(k) {
        v.data[k]
    } else {
        Set::empty()
    }
}

/// Whether index `i` has been downloaded.
pub open spec fn downloaded(v: DownloadsView, i: u64) -> bool {
    v.known.contains_key(i) && v.known[i]
}

/// The indices a client knows of, over all servers.
pub open spec fn client_union(v: DownloadsView, client: NodeId) -> Set<u64> {
    Set::new(|i: u64| exists|s: NodeId| #[trigger] known_for(v, pair_key(client, s)).contains(i))
}

/// `known` after indices `list` became known (those not yet known are not
/// downloaded).
pub open spec fn with_listed(known: Map<u64, bool>, list: Set<u64>) -> Map<u64, bool> {
    Map::new(|i: u64| known.contains_key(i) || list.contains(i), |i: u64| if known.contains_key(i) { known[i] } else { false })
}

/// `known` after indices `list` were downloaded.
pub open spec fn with_downloaded(known: Map<u64, bool>, list: Set<u64>) -> Map<u64, bool> {
    Map::new(|i: u64| known.contains_key(i) || list.contains(i), |i: u64| if list.contains(i) { true } else { known[i] })
}

/// The data after `client` learnt of `list` on `server`.
pub open spec fn after_add_list(v: DownloadsView, client: NodeId, server: NodeId, list: Set<u64>) -> DownloadsView {
    DownloadsView {
        data: v.data.insert(pair_key(client, server), known_for(v, pair_key(client, server)).union(list)),
        known: with_listed(v.known, list),
    }
}

/// The data after `client` downloaded `list` from `server`.
pub open spec fn after_add_data(v: DownloadsView, client: NodeId, server: NodeId, list: Set<u64>) -> DownloadsView {
    DownloadsView {
        data: v.data.insert(pair_key(client, server), known_for(v, pair_key(client, server)).union(list)),
        known: with_downloaded(v.known, list),
    }
}

/// What a client downloaded from a server is then known on that server and
/// downloaded.
pub proof fn law_downloaded_is_reported(v: DownloadsView, client: NodeId, server: NodeId, list: Set<u64>, i: u64)
    requires
        list.contains(i),
    ensures
        known_for(after_add_data(v, client, server, list), pair_key(client, server)).contains(i),
        downloaded(after_add_data(v, client, server, list), i),
{
}

/// Learning of a list of data changes no download status, and leaves known
/// what was known.
pub proof fn law_listing_downloads_nothing(v: DownloadsView, client: NodeId, server: NodeId, list: Set<u64>, i: u64)
    ensures
        downloaded(after_add_list(v, client, server, list), i) == downloaded(v, i),
        known_for(v, pair_key(client, server)).contains(i) ==> known_for(
            after_add_list(v, client, server, list),
            pair_key(client, server),
        ).contains(i),
{
}

/// What `client` downloaded from `server`: the known indices of that pair
/// that are downloaded.
pub open spec fn downloaded_from(v: DownloadsView, client: NodeId, server: NodeId) -> Set<u64> {
    known_for(v, pair_key(client, server)).filter(|i: u64| downloaded(v, i))
}

/// What `client` downloaded over all servers: the indices it knows of on
/// any server that are downloaded.
pub open spec fn all_downloaded(v: DownloadsView, client: NodeId) -> Set<u64> {
    client_union(v, client).filter(|i: u64| downloaded(v, i))
}

/// Law of the downloads over all servers: an index is among what a client
/// downloaded over all servers exactly when it is among what it downloaded
/// from some server; so there is nothing over all servers exactly when
/// there is nothing from each server.
pub proof fn law_all_downloads_are_the_union(v: DownloadsView, client: NodeId)
    ensures
        forall|x: u64| #[trigger] all_downloaded(v, client).contains(x)
            <==> exists|s: NodeId| #[trigger] downloaded_from(v, client, s).contains(x),
        all_downloaded(v, client).is_empty() <==> forall|s: NodeId| #[trigger] downloaded_from(v, client, s).is_empty(),
{
    let all = all_downloaded(v, client);
    assert forall|x: u64| #[trigger] all.contains(x) <==> exists|s: NodeId| #[trigger] downloaded_from(v, client, s).contains(x) by {
        if all.contains(x) {
            let s = choose|s: NodeId| #[trigger] known_for(v, pair_key(client, s)).contains(x);
            assert(downloaded_from(v, client, s).contains(x));
        }
        if exists|s: NodeId| #[trigger] downloaded_from(v, client, s).contains(x) {
            let s = choose|s: NodeId| #[trigger] downloaded_from(v, client, s).contains(x);
            assert(known_for(v, pair_key(client, s)).contains(x));
            assert(client_union(v, client).contains(x));
        }
    }
    if all.is_empty() {
        assert forall|s: NodeId| #[trigger] downloaded_from(v, client, s).is_empty() by {
            if !downloaded_from(v, client, s).is_empty() {
                let x = downloaded_from(v, client, s).choose();
                assert(downloaded_from(v, client, s).contains(x));
                assert(all.contains(x));
            }
        }
    }
    if forall|s: NodeId| #[trigger] downloaded_from(v, client, s).is_empty() {
        if !all.is_empty() {
            let x = all.choose();
            assert(all.contains(x));
            let s = choose|s: NodeId| #[trigger] downloaded_from(v, client, s).contains(x);
            assert(downloaded_from(v, client, s).is_empty());
        }
    }
}

proof fn lemma_pair_key(c: NodeId, s: NodeId, k: u16)
    ensures
        pair_key(c, s) == c as int * 256 + s as int,
        (k / 256 == c) == (k == pair_key(c, (k % 256) as NodeId)),
        pair_key(c, s) / 256 == c,
        pair_key(c, s) % 256 == s,
{
}

impl ClientsDownloadedData {
    pub fn new() -> (r: Self)
        ensures
            r@.data == Map::<u16, Set<u64>>::empty(),
            r@.known == Map::<u64, bool>::empty(),
    {
        let r = ClientsDownloadedData { data: HashMap::new(), known_data: HashMap::new() };
        proof {
            assert(r@.data =~= Map::<u16, Set<u64>>::empty());
        }
        r
    }

    fn take_set(&mut self, k: u16) -> (r: HashSet<u64>)
        ensures
            r@ == known_for(old(self)@, k),
            final(self)@.data == old(self)@.data.remove(k),
            final(self)@.known == old(self)@.known,
    {
        let r = match self.data.remove(&k) {
            Some(s) => s,
            None => HashSet::new(),
        };
        proof {
            assert(self@.data =~= old(self)@.data.remove(k));
        }
        r
    }

    fn put_set(&mut self, k: u16, s: HashSet<u64>)
        ensures
            final(self)@.data == old(self)@.data.insert(k, s@),
            final(self)@.known == old(self)@.known,
    {
        let ghost sv = s@;
        self.data.insert(k, s);
        proof {
            assert(self@.data =~= old(self)@.data.insert(k, sv));
        }
    }

    /// Records that `client` learnt of the indices `index_list` on `server`;
    /// indices seen for the first time are marked as not downloaded.
    pub fn add_list(&mut self, client: NodeId, server: NodeId, index_list: HashSet<u64>)
        ensures
            final(self)@ == after_add_list(old(self)@, client, server, index_list@),
    {
        let k = pair_key_exec(client, server);
        let mut set = self.take_set(k);
        let ghost s0 = set@;
        let ghost k0 = self@.known;
        let ghost d0 = self@.data;
        let ghost all = vstd::std_specs::hash::spec_hash_keys_iter(&index_list).remaining();
        for index in it: index_list.iter()
            invariant
                it.seq() == all,
                all.unref().to_set() == index_list@,
                self@.data == d0,
                set@ == s0.union(it.seq().take(it.index() as int).unref().to_set()),
                self@.known == with_listed(k0, it.seq().take(it.index() as int).unref().to_set()),
        {
            let ghost before = it.seq().take(it.index() as int).unref();
            let ghost after = it.seq().take(it.index() as int + 1).unref();
            proof {
                assert(after =~= before.push(*index));
                assert(after.to_set() =~= before.to_set().insert(*index)) by {
                    assert forall|x: u64| after.to_set().contains(x) == before.to_set().insert(*index).contains(x) by {
                        if after.contains(x) {
                            let j = choose|j: int| 0 <= j < after.len() && after[j] == x;
                            if j < before.len() {
                                assert(before[j] == x);
                            }
                        }
                        if before.contains(x) {
                            let j = choose|j: int| 0 <= j < before.len() && before[j] == x;
                            assert(after[j] == x);
                        }
                        if x == *index {
                            assert(after[before.len() as int] == x);
                        }
                    }
                }
            }
            set.insert(*index);
            if !self.known_data.contains_key(index) {
                self.known_data.insert(*index, false);
            }
            proof {
                assert(set@ =~= s0.union(after.to_set()));
                assert(self@.known =~= with_listed(k0, after.to_set()));
            }
        }
        proof {
            assert(all.take(all.len() as int) =~= all);
        }
        self.put_set(k, set);
        proof {
            assert(d0 == old(self)@.data.remove(k));
            assert(self@.data =~= old(self)@.data.insert(k, known_for(old(self)@, k).union(index_list@)));
        }
    }

    /// Records that `client` downloaded the indices `data_index` from `server`.
    pub fn add_data(&mut self, client: NodeId, server: NodeId, data_index: Vec<u64>)
        ensures
            final(self)@ == after_add_data(old(self)@, client, server, data_index@.to_set()),
    {
        let k = pair_key_exec(client, server);
        let mut set = self.take_set(k);
        let ghost s0 = set@;
        let ghost k0 = self@.known;
        let ghost d0 = self@.data;
        let mut i: usize = 0;
        while i < data_index.len()
            invariant
                i <= data_index.len(),
                self@.data == d0,
                set@ == s0.union(data_index@.take(i as int).to_set()),
                self@.known == with_downloaded(k0, data_index@.take(i as int).to_set()),
            decreases data_index.len() - i,
        {
            let index = data_index[i];
            let ghost before = data_index@.take(i as int);
            let ghost after = data_index@.take(i as int + 1);
            proof {
                assert(after =~= before.push(index));
                assert(after.to_set() =~= before.to_set().insert(index)) by {
                    assert forall|x: u64| after.to_set().contains(x) == before.to_set().insert(index).contains(x) by {
                        if after.contains(x) {
                            let j = choose|j: int| 0 <= j < after.len() && after[j] == x;
                            if j < before.len() {
                                assert(before[j] == x);
                            }
                        }
                        if before.contains(x) {
                            let j = choose|j: int| 0 <= j < before.len() && before[j] == x;
                            assert(after[j] == x);
                        }
                        if x == index {
                            assert(after[before.len() as int] == x);
                        }
                    }
                }
            }
            set.insert(index);
            self.known_data.insert(index, true);
            i = i + 1;
            proof {
                assert(set@ =~= s0.union(after.to_set()));
                assert(self@.known =~= with_downloaded(k0, after.to_set()));
            }
        }
        proof {
            assert(data_index@.take(data_index@.len() as int) =~= data_index@);
        }
        self.put_set(k, set);
        proof {
            assert(d0 == old(self)@.data.remove(k));
            assert(self@.data =~= old(self)@.data.insert(k, known_for(old(self)@, k).union(data_index@.to_set())));
        }
    }

    /// The indices of `set` that satisfy `only_downloaded` (all of them when
    /// it is false), each once.
    fn collect(&self, set: &HashSet<u64>, only_downloaded: bool) -> (r: Vec<u64>)
        ensures
            r@.no_duplicates(),
            r@.to_set() == set@.filter(|i: u64| !only_downloaded || downloaded(self@, i)),
    {
        let ghost all = vstd::std_specs::hash::spec_hash_keys_iter(set).remaining();
        let ghost p = |i: u64| !only_downloaded || downloaded(self@, i);
        let mut r: Vec<u64> = Vec::new();
        for index in it: set.iter()
            invariant
                it.seq() == all,
                all.unref().to_set() == set@,
                all.no_duplicates(),
                p == (|i: u64| !only_downloaded || downloaded(self@, i)),
                r@ == it.seq().take(it.index() as int).unref().filter(p),
                r@.no_duplicates(),
        {
            let ghost before = it.seq().take(it.index() as int).unref();
            let ghost idx = it.index() as int;
            proof {
                assert(it.seq().take(it.index() as int + 1).unref() =~= before.push(*index));
                before.lemma_filter_push(*index, p);
            }
            let keep = if only_downloaded {
                match self.known_data.get(index) {
                    Some(b) => *b,
                    None => false,
                }
            } else {
                true
            };
            proof {
                assert(keep == p(*index));
            }
            if keep {
                proof {
                    if r@.contains(*index) {
                        let j = choose|j: int| 0 <= j < r@.len() && r@[j] == *index;
                        broadcast use vstd::seq_lib::group_filter_ensures;
                        assert(before.filter(p)[j] == *index);
                        assert(before.filter(p).contains(*index));
                        before.lemma_filter_contains_rev(p, *index);
                        assert(before.contains(*index));
                        let m = choose|m: int| 0 <= m < before.len() && before[m] == *index;
                        assert(all[m] == all[idx]);
                    }
                }
                r.push(*index);
            }
        }
        proof {
            let u = all.unref();
            assert(all.take(all.len() as int) =~= all);
            assert(r@ == u.filter(p));
            assert(r@.to_set() =~= set@.filter(p)) by {
                assert forall|x: u64| r@.to_set().contains(x) == set@.filter(p).contains(x) by {
                    if r@.contains(x) {
                        broadcast use vstd::seq_lib::group_filter_ensures;
                        let j = choose|j: int| 0 <= j < r@.len() && r@[j] == x;
                        assert(u.filter(p)[j] == x);
                        assert(u.filter(p).contains(x));
                        u.lemma_filter_contains_rev(p, x);
                        assert(u.contains(x));
                        assert(p(x));
                    }
                    if set@.filter(p).contains(x) {
                        assert(u.to_set().contains(x));
                        u.lemma_filter_contains_rev(p, x);
                    }
                }
            }
        }
        r
    }

    /// What `client` knows is on `server`, whether downloaded or not; `None`
    /// if the pair was never seen.
    pub fn get_know_list(&self, client: NodeId, server: NodeId) -> (r: Option<Vec<u64>>)
        ensures
            match r {
                None => !self@.data.contains_key(pair_key(client, server)),
                Some(v) => self@.data.contains_key(pair_key(client, server)) && v@.no_duplicates()
                    && v@.to_set() == self@.data[pair_key(client, server)],
            },
    {
        let k = pair_key_exec(client, server);
        match self.data.get(&k) {
            Some(set) => {
                let v = self.collect(set, false);
                proof {
                    assert(set@.filter(|i: u64| !false || downloaded(self@, i)) =~= set@);
                }
                Some(v)
            },
            None => None,
        }
    }

    /// What `client` downloaded from `server`; `None` if the pair was never seen.
    pub fn get_know_data(&self, client: NodeId, server: NodeId) -> (r: Option<Vec<u64>>)
        ensures
            match r {
                None => !self@.data.contains_key(pair_key(client, server)),
                Some(v) => self@.data.contains_key(pair_key(client, server)) && v@.no_duplicates()
                    && v@.to_set() == downloaded_from(self@, client, server),
            },
    {
        let k = pair_key_exec(client, server);
        match self.data.get(&k) {
            Some(set) => {
                let v = self.collect(set, true);
                proof {
                    assert(set@.filter(|i: u64| !true || downloaded(self@, i)) =~= set@.filter(|i: u64| downloaded(self@, i)));
                }
                Some(v)
            },
            None => None,
        }
    }

    /// What `client` downloaded from any server; `None` if it knows of
    /// nothing, or downloaded nothing of what it knows.
    pub fn get_all_know_data(&self, client: NodeId) -> (r: Option<Vec<u64>>)
        ensures
            match r {
                None => all_downloaded(self@, client).is_empty(),
                Some(v) => v@.no_duplicates() && v@.len() > 0 && v@.to_set() == all_downloaded(self@, client),
            },
    {
        let mut client_data: HashSet<u64> = HashSet::new();
        let ghost all = vstd::std_specs::hash::spec_keys_iter(&self.data).remaining();
        for key in it: self.data.keys()
            invariant
                it.seq() == all,
                all.unref().to_set() == self.data@.dom(),
                client_data@ == Set::new(|i: u64| exists|j: int| 0 <= j < it.index() && #[trigger] all[j] / 256 == client
                    && self@.data[*all[j]].contains(i)),
        {
            if *key / 256 == client as u16 {
                let set = self.data.get(key).unwrap();
                let ghost cd0 = client_data@;
                let ghost jj = it.index() as int;
                for index in it2: set.iter()
                    invariant
                        it2.seq() == vstd::std_specs::hash::spec_hash_keys_iter(set).remaining(),
                        it2.seq().unref().to_set() == set@,
                        client_data@ == cd0.union(it2.seq().take(it2.index() as int).unref().to_set()),
                {
                    let ghost before = it2.seq().take(it2.index() as int).unref();
                    let ghost after = it2.seq().take(it2.index() as int + 1).unref();
                    proof {
                        assert(after =~= before.push(*index));
                        assert(after.to_set() =~= before.to_set().insert(*index)) by {
                            assert forall|x: u64| after.to_set().contains(x) == before.to_set().insert(*index).contains(x) by {
                                if after.contains(x) {
                                    let j = choose|j: int| 0 <= j < after.len() && after[j] == x;
                                    if j < before.len() {
                                        assert(before[j] == x);
                                    }
                                }
                                if before.contains(x) {
                                    let j = choose|j: int| 0 <= j < before.len() && before[j] == x;
                                    assert(after[j] == x);
                                }
                                if x == *index {
                                    assert(after[before.len() as int] == x);
                                }
                            }
                        }
                    }
                    client_data.insert(*index);
                    proof {
                        assert(client_data@ =~= cd0.union(after.to_set()));
                    }
                }
                proof {
                    let s2 = vstd::std_specs::hash::spec_hash_keys_iter(set).remaining();
                    assert(s2.take(s2.len() as int) =~= s2);
                    assert(self@.data[*all[jj]] == set@);
                    assert(client_data@ =~= Set::new(|i: u64| exists|j: int| 0 <= j < jj + 1 && #[trigger] all[j] / 256 == client
                        && self@.data[*all[j]].contains(i))) by {
                        assert forall|i: u64| client_data@.contains(i) implies (exists|j: int| 0 <= j < jj + 1 && #[trigger] all[j] / 256 == client
                            && self@.data[*all[j]].contains(i)) by {
                            if !cd0.contains(i) {
                                assert(all[jj] / 256 == client && self@.data[*all[jj]].contains(i));
                            }
                        }
                        assert forall|i: u64| (exists|j: int| 0 <= j < jj + 1 && #[trigger] all[j] / 256 == client
                            && self@.data[*all[j]].contains(i)) implies client_data@.contains(i) by {
                            let j = choose|j: int| 0 <= j < jj + 1 && #[trigger] all[j] / 256 == client && self@.data[*all[j]].contains(i);
                            if j < jj {
                                assert(cd0.contains(i));
                            } else {
                                assert(set@.contains(i));
                            }
                        }
                    }
                }
            } else {
                proof {
                    let jj = it.index() as int;
                    assert(client_data@ =~= Set::new(|i: u64| exists|j: int| 0 <= j < jj + 1 && #[trigger] all[j] / 256 == client
                        && self@.data[*all[j]].contains(i))) by {
                        assert forall|i: u64| (exists|j: int| 0 <= j < jj + 1 && #[trigger] all[j] / 256 == client
                            && self@.data[*all[j]].contains(i)) implies client_data@.contains(i) by {
                            let j = choose|j: int| 0 <= j < jj + 1 && #[trigger] all[j] / 256 == client && self@.data[*all[j]].contains(i);
                            assert(j != jj);
                        }
                    }
                }
            }
        }
        proof {
            assert(client_data@ =~= client_union(self@, client)) by {
                assert forall|i: u64| client_data@.contains(i) implies client_union(self@, client).contains(i) by {
                    let j = choose|j: int| 0 <= j < all.len() && #[trigger] all[j] / 256 == client && self@.data[*all[j]].contains(i);
                    let k = *all[j];
                    assert(all.unref()[j] == k);
                    assert(self.data@.dom().contains(k));
                    lemma_pair_key(client, (k % 256) as NodeId, k);
                    assert(known_for(self@, pair_key(client, (k % 256) as NodeId)).contains(i));
                }
                assert forall|i: u64| client_union(self@, client).contains(i) implies client_data@.contains(i) by {
                    let s = choose|s: NodeId| #[trigger] known_for(self@, pair_key(client, s)).contains(i);
                    let k = pair_key(client, s);
                    lemma_pair_key(client, s, k);
                    assert(self@.data.contains_key(k));
                    assert(all.unref().to_set().contains(k));
                    let j = choose|j: int| 0 <= j < all.unref().len() && all.unref()[j] == k;
                    assert(*all[j] == k);
                    assert(all[j] / 256 == client);
                }
            }
        }
        if client_data.is_empty() {
            proof {
                assert(client_union(self@, client).filter(|i: u64| downloaded(self@, i)) =~= Set::empty());
            }
            return None;
        }
        let downloaded_data = self.collect(&client_data, true);
        proof {
            assert(client_data@.filter(|i: u64| !true || downloaded(self@, i)) =~= client_union(self@, client).filter(|i: u64| downloaded(self@, i)));
        }
        if downloaded_data.len() == 0 {
            proof {
                assert(downloaded_data@.to_set() =~= Set::empty());
            }
            None
        } else {
            Some(downloaded_data)
        }
    }
}

} // verus!
