//! Reassembly of fragmented messages, one assembly per session.
use vstd::prelude::*;
use crate::packet::{Packet, PacketType};
use crate::fragmentation::{fragment_count, padded_chunk, padded_message, zeros, chunk_len, is_fragment_of};

verus! {

/// The data gathered so far for one session.
pub struct DataAssembly {
    session_id: u64,
    data: Vec<u8>,
    total_fragments: u64,
    current_fragment_index: u64,
}

/// Mathematical model of a `DataAssembly`.
pub struct AssemblyView {
    pub session_id: u64,
    pub data: Seq<u8>,
    pub total_fragments: u64,
    pub current_fragment_index: u64,
}

impl View for DataAssembly {
    type V = AssemblyView;

    closed spec fn view(&self) -> AssemblyView {
        AssemblyView {
            session_id: self.session_id,
            data: self.data@,
            total_fragments: self.total_fragments,
            current_fragment_index: self.current_fragment_index,
        }
    }
}

/// Collects the fragments of each session until all have arrived.
pub struct Assembler {
    pub assemblies: Vec<DataAssembly>,
}

impl View for Assembler {
    type V = Seq<AssemblyView>;

    open spec fn view(&self) -> Seq<AssemblyView> {
        self.assemblies@.map_values(|a: DataAssembly| a@)
    }
}

/// Index of the first assembly of session `sid`, or `s.len()` if there is none.
pub open spec fn first_match(s: Seq<AssemblyView>, sid: u64) -> int
    decreases s.len(),
{
    if s.len() == 0 {
        0
    } else if s[0].session_id == sid {
        0
    } else {
        1 + first_match(s.drop_first(), sid)
    }
}

pub proof fn lemma_first_match(s: Seq<AssemblyView>, sid: u64)
    ensures
        0 <= first_match(s, sid) <= s.len(),
        forall|j: int| 0 <= j < first_match(s, sid) ==> s[j].session_id != sid,
        first_match(s, sid) < s.len() ==> s[first_match(s, sid)].session_id == sid,
    decreases s.len(),
{
    if s.len() > 0 && s[0].session_id != sid {
        lemma_first_match(s.drop_first(), sid);
        assert forall|j: int| 0 <= j < first_match(s, sid) implies s[j].session_id != sid by {
            if j > 0 {
                assert(s[j] == s.drop_first()[j - 1]);
            }
        }
    }
}

/// No assembly in `s` belongs to session `sid`.
pub open spec fn no_session(s: Seq<AssemblyView>, sid: u64) -> bool {
    forall|k: int| 0 <= k < s.len() ==> s[k].session_id != sid
}

/// Bytes of the fragments accepted so far may keep growing: the counter of
/// the assembly that the next fragment of `sid` extends is below `u64::MAX`.
pub open spec fn can_count(s: Seq<AssemblyView>, sid: u64) -> bool {
    first_match(s, sid) < s.len() ==> s[first_match(s, sid)].current_fragment_index < u64::MAX
}

/// What receiving one fragment of session `sid` that announces `total`
/// fragments and carries `data` does: the new assemblies, and the
/// assembled message when it is complete.
pub open spec fn assembler_step(s: Seq<AssemblyView>, sid: u64, total: u64, data: Seq<u8>) -> (Seq<AssemblyView>, Option<Seq<u8>>) {
    if total == 0 {
        (s, None)
    } else if total == 1 {
        (s, Some(data))
    } else if first_match(s, sid) < s.len() {
        let k = first_match(s, sid);
        let a = s[k];
        let a2 = AssemblyView {
            session_id: a.session_id,
            data: a.data + data,
            total_fragments: a.total_fragments,
            current_fragment_index: (a.current_fragment_index + 1) as u64,
        };
        (s.update(k, a2), if a2.current_fragment_index == a2.total_fragments { Some(a2.data) } else { None })
    } else {
        (s.push(AssemblyView { session_id: sid, data: data, total_fragments: total, current_fragment_index: 1 }), None)
    }
}

spec fn data_view_is(a: &DataAssembly, d: Seq<u8>) -> bool {
    a.data@ == d
}

impl Assembler {
    pub fn new(assemblies: Vec<DataAssembly>) -> (r: Self)
        ensures
            r.assemblies@ == assemblies@,
    {
        Assembler { assemblies }
    }

    /// Whether a fragment of session `session_id` can be taken in: the
    /// assembly it would extend has not counted `u64::MAX` fragments.
    pub fn can_take(&self, session_id: u64) -> (r: bool)
        ensures
            r == can_count(self@, session_id),
    {
        proof {
            lemma_first_match(self@, session_id);
        }
        let mut i: usize = 0;
        while i < self.assemblies.len()
            invariant
                i <= self.assemblies.len(),
                0 <= first_match(self@, session_id) <= self@.len(),
                first_match(self@, session_id) < self@.len() ==> self@[first_match(self@, session_id)].session_id == session_id,
                first_match(self@, session_id) >= i,
                forall|j: int| 0 <= j < i ==> self@[j].session_id != session_id,
            decreases self.assemblies.len() - i,
        {
            if self.assemblies[i].session_id == session_id {
                proof {
                    lemma_first_match(self@, session_id);
                    assert(self@[i as int].session_id == session_id);
                    assert(first_match(self@, session_id) == i);
                }
                return self.assemblies[i].current_fragment_index < u64::MAX;
            }
            i = i + 1;
        }
        true
    }

    /// Takes in a packet; returns the whole data of its session once its last
    /// fragment has arrived. Packets that are not fragments, and fragments
    /// that announce no fragment at all, change nothing.
    pub fn handle_packet(&mut self, packet: &Packet) -> (r: Option<Vec<u8>>)
        requires
            packet.pack_type matches PacketType::MsgFragment(f) && f.total_n_fragments >= 2
                ==> can_count(old(self)@, packet.session_id),
        ensures
            match packet.pack_type {
                PacketType::MsgFragment(f) => {
                    let (s, out) = assembler_step(old(self)@, packet.session_id, f.total_n_fragments, f.data@);
                    &&& final(self)@ == s
                    &&& match r {
                        Some(v) => out == Some(v@),
                        None => out is None,
                    }
                },
                _ => final(self)@ == old(self)@ && r is None,
            },
    {
        let session_id = packet.session_id;
        match &packet.pack_type {
            PacketType::MsgFragment(fragment) => {
                if fragment.total_n_fragments == 0 {
                    return None;
                }
                if fragment.total_n_fragments == 1 {
                    let mut single: Vec<u8> = Vec::new();
                    single.extend_from_slice(&fragment.data);
                    return Some(single);
                }
                proof {
                    lemma_first_match(self@, session_id);
                }
                let mut k: usize = 0;
                while k < self.assemblies.len() && self.assemblies[k].session_id != session_id
                    invariant
                        k <= self.assemblies.len(),
                        self@ == old(self)@,
                        forall|j: int| 0 <= j < k ==> self.assemblies@[j]@.session_id != session_id,
                    decreases self.assemblies.len() - k,
                {
                    k = k + 1;
                }
                proof {
                    lemma_first_match(self@, session_id);
                    let m = first_match(self@, session_id);
                    assert forall|j: int| 0 <= j < k implies self@[j].session_id != session_id by {
                        assert(self@[j] == self.assemblies@[j]@);
                    }
                    if k < self@.len() {
                        assert(self@[k as int] == self.assemblies@[k as int]@);
                        if m < k {
                            assert(self@[m].session_id == session_id);
                        }
                        assert(m == k);
                    } else {
                        if m < self@.len() {
                            assert(self@[m].session_id == session_id);
                        }
                        assert(m == self@.len());
                    }
                }
                let ghost s0 = self@;
                let ghost v0 = self.assemblies@;
                if k < self.assemblies.len() {
                    let mut assembly = self.assemblies.remove(k);
                    proof { assert(assembly@ == s0[k as int]); }
                    assembly.data.extend_from_slice(&fragment.data);
                    proof { assert(assembly.data@ == s0[k as int].data + fragment.data@); }
                    assembly.current_fragment_index = assembly.current_fragment_index + 1;
                    let done = assembly.current_fragment_index == assembly.total_fragments;
                    let out = if done {
                        Some(assembly.data.clone())
                    } else {
                        None
                    };
                    let ghost a2 = assembly@;
                    self.assemblies.insert(k, assembly);
                    proof {
                        assert(self.assemblies@ =~= v0.update(k as int, self.assemblies@[k as int]));
                        assert forall|j: int| 0 <= j < self@.len() implies self@[j] == s0.update(k as int, a2)[j] by {
                            if j != k {
                                assert(self@[j] == self.assemblies@[j]@);
                                assert(s0[j] == v0[j]@);
                            }
                        }
                        assert(self@ =~= s0.update(k as int, a2));
                        assert(self@ =~= assembler_step(old(self)@, session_id, fragment.total_n_fragments, fragment.data@).0);
                    }
                    out
                } else {
                    let mut data: Vec<u8> = Vec::new();
                    data.extend_from_slice(&fragment.data);
                    proof { assert(data@ =~= fragment.data@); }
                    let assembly = DataAssembly {
                        session_id,
                        data,
                        total_fragments: fragment.total_n_fragments,
                        current_fragment_index: 1,
                    };
                    proof { assert(data_view_is(&assembly, fragment.data@)); }
                    self.assemblies.push(assembly);
                    proof {
                        assert(self@[s0.len() as int] == self.assemblies@[s0.len() as int]@);
                        assert forall|j: int| 0 <= j < s0.len() implies self@[j] == s0[j] by {
                            assert(self@[j] == self.assemblies@[j]@);
                            assert(s0[j] == v0[j]@);
                        }
                        assert(self@ =~= assembler_step(old(self)@, session_id, fragment.total_n_fragments, fragment.data@).0);
                    }
                    None
                }
            },
            _ => None,
        }
    }
}

} // verus!

verus! {

/// The assemblies and the outputs after receiving, in order, fragments of
/// session `sid` announcing `total` fragments and carrying `chunks`.
pub open spec fn feed(s: Seq<AssemblyView>, sid: u64, total: u64, chunks: Seq<Seq<u8>>) -> (Seq<AssemblyView>, Seq<Option<Seq<u8>>>)
    decreases chunks.len(),
{
    if chunks.len() == 0 {
        (s, Seq::empty())
    } else {
        let step = assembler_step(s, sid, total, chunks[0]);
        let rest = feed(step.0, sid, total, chunks.drop_first());
        (rest.0, seq![step.1] + rest.1)
    }
}

/// The data fields of the fragments of `bytes`, in order.
pub open spec fn message_chunks(bytes: Seq<u8>) -> Seq<Seq<u8>> {
    Seq::new(fragment_count(bytes.len() as int) as nat, |i: int| padded_chunk(bytes, i))
}

proof fn lemma_count_bounds(len: int)
    requires
        len > 0,
    ensures
        (fragment_count(len) - 1) * 128 < len,
        len <= fragment_count(len) * 128,
        fragment_count(len) >= 1,
{
    assert(((len + 127) / 128) * 128 <= len + 127 < ((len + 127) / 128) * 128 + 128) by (nonlinear_arith)
        requires len > 0;
}

/// The chunks of a message from index `j` on, flattened, are the rest of the
/// message followed by the padding.
proof fn lemma_chunks_from(bytes: Seq<u8>, j: int)
    requires
        bytes.len() > 0,
        0 <= j < fragment_count(bytes.len() as int),
    ensures
        message_chunks(bytes).subrange(j, fragment_count(bytes.len() as int)).flatten()
            == bytes.subrange(j * 128, bytes.len() as int) + zeros(fragment_count(bytes.len() as int) * 128 - bytes.len()),
    decreases fragment_count(bytes.len() as int) - j,
{
    let n = fragment_count(bytes.len() as int);
    let len = bytes.len() as int;
    lemma_count_bounds(len);
    let c = message_chunks(bytes).subrange(j, n);
    assert(c[0] == padded_chunk(bytes, j));
    if j == n - 1 {
        assert(c.drop_first() =~= Seq::<Seq<u8>>::empty());
        assert(c.flatten() == c[0] + c.drop_first().flatten());
        assert(c.flatten() =~= bytes.subrange(j * 128, len) + zeros(n * 128 - len));
    } else {
        lemma_chunks_from(bytes, j + 1);
        assert(c.drop_first() =~= message_chunks(bytes).subrange(j + 1, n));
        assert(chunk_len(len, j) == 128);
        assert(c.flatten() == c[0] + c.drop_first().flatten());
        assert(c.flatten() =~= bytes.subrange(j * 128, len) + zeros(n * 128 - len));
    }
}

proof fn lemma_first_match_update(s: Seq<AssemblyView>, sid: u64, k: int, a: AssemblyView)
    requires
        k == first_match(s, sid),
        k < s.len(),
        a.session_id == sid,
    ensures
        first_match(s.update(k, a), sid) == k,
{
    lemma_first_match(s, sid);
    let t = s.update(k, a);
    lemma_first_match(t, sid);
    let m = first_match(t, sid);
    if m < k {
        assert(t[m] == s[m]);
    }
    if k < m {
        assert(t[k].session_id == sid);
    }
}

/// Feeding the remaining chunks into assemblies whose first assembly of
/// `sid` holds `d` after `m` of `total` fragments.
proof fn lemma_feed_rest(t: Seq<AssemblyView>, sid: u64, total: u64, d: Seq<u8>, m: u64, c: Seq<Seq<u8>>)
    requires
        first_match(t, sid) < t.len(),
        t[first_match(t, sid)] == (AssemblyView { session_id: sid, data: d, total_fragments: total, current_fragment_index: m }),
        1 <= m,
        m + c.len() == total,
        total >= 2,
    ensures
        feed(t, sid, total, c).1.len() == c.len(),
        forall|i: int| 0 <= i < c.len() - 1 ==> feed(t, sid, total, c).1[i] is None,
        c.len() > 0 ==> feed(t, sid, total, c).1[c.len() - 1] == Some(d + c.flatten()),
    decreases c.len(),
{
    if c.len() > 0 {
        lemma_first_match(t, sid);
        let k = first_match(t, sid);
        let a2 = AssemblyView { session_id: sid, data: d + c[0], total_fragments: total, current_fragment_index: (m + 1) as u64 };
        let step = assembler_step(t, sid, total, c[0]);
        assert(step.0 == t.update(k, a2));
        lemma_first_match_update(t, sid, k, a2);
        assert(step.0[k] == a2);
        lemma_feed_rest(step.0, sid, total, d + c[0], (m + 1) as u64, c.drop_first());
        let outs = feed(t, sid, total, c).1;
        let rest = feed(step.0, sid, total, c.drop_first()).1;
        assert(outs == seq![step.1] + rest);
        assert(c.flatten() == c[0] + c.drop_first().flatten());
        assert(d + c.flatten() =~= (d + c[0]) + c.drop_first().flatten());
        if c.len() == 1 {
            assert(c.drop_first().flatten() =~= Seq::<u8>::empty());
            assert(step.1 == Some(d + c[0]));
        } else {
            assert(step.1 is None);
        }
    }
}

/// Law of reassembly for any fragments: when `n >= 1` fragments of one
/// session, each announcing `n` fragments, arrive in order at an assembler
/// that holds nothing of that session, nothing is handed out until the last
/// one, and then the data of all of them, in order.
pub proof fn law_chunks_reassemble(s: Seq<AssemblyView>, sid: u64, chunks: Seq<Seq<u8>>)
    requires
        chunks.len() >= 1,
        chunks.len() <= u64::MAX,
        no_session(s, sid),
    ensures
        ({
            let n = chunks.len();
            let outs = feed(s, sid, n as u64, chunks).1;
            &&& outs.len() == n
            &&& forall|i: int| 0 <= i < n - 1 ==> outs[i] is None
            &&& outs[n - 1] == Some(chunks.flatten())
        }),
{
    let n = chunks.len();
    let c = chunks;
    lemma_first_match(s, sid);
    if first_match(s, sid) < s.len() {
        assert(s[first_match(s, sid)].session_id == sid);
    }
    let outs = feed(s, sid, n as u64, c).1;
    assert(c.flatten() == c[0] + c.drop_first().flatten());
    if n == 1 {
        assert(c.drop_first() =~= Seq::<Seq<u8>>::empty());
        assert(c.flatten() =~= c[0]);
        let step = assembler_step(s, sid, 1, c[0]);
        assert(step.1 == Some(c[0]));
        assert(feed(step.0, sid, 1, c.drop_first()).1 =~= Seq::<Option<Seq<u8>>>::empty());
        assert(outs =~= seq![Some(c[0])]);
    } else {
        let a = AssemblyView { session_id: sid, data: c[0], total_fragments: n as u64, current_fragment_index: 1 };
        let step = assembler_step(s, sid, n as u64, c[0]);
        assert(step.0 == s.push(a));
        lemma_first_match(s.push(a), sid);
        let m = first_match(s.push(a), sid);
        if m < s.len() {
            assert(s.push(a)[m] == s[m]);
            assert(s[m].session_id != sid);
        }
        assert(s.push(a)[s.len() as int].session_id == sid);
        assert(m == s.len());
        lemma_feed_rest(step.0, sid, n as u64, c[0], 1, c.drop_first());
        let rest = feed(step.0, sid, n as u64, c.drop_first()).1;
        assert(outs == seq![step.1] + rest);
    }
}

/// Law of reassembly: when the fragments of a message arrive in order at
/// an assembler that holds nothing of their session, the assembler hands
/// out nothing until the last fragment, and then the whole message,
/// padded with zeros up to a whole number of fragments.
pub proof fn law_fragments_reassemble(s: Seq<AssemblyView>, sid: u64, bytes: Seq<u8>)
    requires
        bytes.len() > 0,
        no_session(s, sid),
        fragment_count(bytes.len() as int) < u64::MAX,
    ensures
        ({
            let n = fragment_count(bytes.len() as int);
            let outs = feed(s, sid, n as u64, message_chunks(bytes)).1;
            &&& outs.len() == n
            &&& forall|i: int| 0 <= i < n - 1 ==> outs[i] is None
            &&& outs[n - 1] == Some(padded_message(bytes))
        }),
{
    let n = fragment_count(bytes.len() as int);
    let len = bytes.len() as int;
    lemma_count_bounds(len);
    let c = message_chunks(bytes);
    lemma_chunks_from(bytes, 0);
    assert(c.subrange(0, n) =~= c);
    assert(bytes.subrange(0, len) =~= bytes);
    assert(c.flatten() == padded_message(bytes));
    law_chunks_reassemble(s, sid, c);
}

/// The data a packet carries, when it is a fragment.
pub open spec fn fragment_data(p: Packet) -> Seq<u8> {
    match p.pack_type {
        PacketType::MsgFragment(f) => f.data@,
        _ => Seq::empty(),
    }
}

/// Law of delivery: the fragments of a message, as `fragment_message` makes
/// them, taken in order by an assembler that holds nothing of their
/// session, give nothing until the last one, and then the whole message
/// padded with zeros.
pub proof fn law_sent_fragments_reassemble(s: Seq<AssemblyView>, sid: u64, bytes: Seq<u8>, packets: Seq<Packet>)
    requires
        bytes.len() > 0,
        no_session(s, sid),
        fragment_count(bytes.len() as int) < u64::MAX,
        packets.len() == fragment_count(bytes.len() as int),
        forall|i: int|
            0 <= i < packets.len() ==> (#[trigger] packets[i].pack_type matches PacketType::MsgFragment(f)
                && is_fragment_of(f, bytes, i)),
    ensures
        ({
            let n = fragment_count(bytes.len() as int);
            let outs = feed(s, sid, n as u64, packets.map_values(|p: Packet| fragment_data(p))).1;
            &&& outs.len() == n
            &&& forall|i: int| 0 <= i < n - 1 ==> outs[i] is None
            &&& outs[n - 1] == Some(padded_message(bytes))
        }),
{
    let chunks = packets.map_values(|p: Packet| fragment_data(p));
    assert forall|i: int| 0 <= i < chunks.len() implies chunks[i] == message_chunks(bytes)[i] by {
        assert(packets[i].pack_type matches PacketType::MsgFragment(f) && is_fragment_of(f, bytes, i));
    }
    assert(chunks =~= message_chunks(bytes));
    law_fragments_reassemble(s, sid, bytes);
}

} // verus!
