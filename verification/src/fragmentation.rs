//! Splitting a serialized message into fragments of `FRAGMENT_DSIZE` bytes.
use vstd::prelude::*;
use crate::packet::{NodeId, Fragment, Packet, PacketType, SourceRoutingHeader, copy_ids};

verus! {

/// How many fragments a message of `len` bytes is split into.
pub open spec fn fragment_count(len: int) -> int {
    (len + 127) / 128
}

/// How many message bytes fragment `i` of a `len`-byte message carries.
pub open spec fn chunk_len(len: int, i: int) -> int {
    if len - i * 128 < 128 {
        len - i * 128
    } else {
        128
    }
}

/// `n` zero bytes.
pub open spec fn zeros(n: int) -> Seq<u8> {
    Seq::new(n as nat, |_i: int| 0u8)
}

/// The 128 bytes of fragment `i`: its slice of the message, padded with zeros.
pub open spec fn padded_chunk(bytes: Seq<u8>, i: int) -> Seq<u8> {
    bytes.subrange(i * 128, i * 128 + chunk_len(bytes.len() as int, i)) + zeros(
        128 - chunk_len(bytes.len() as int, i),
    )
}

/// The message padded with zeros up to a whole number of fragments.
pub open spec fn padded_message(bytes: Seq<u8>) -> Seq<u8> {
    bytes + zeros(fragment_count(bytes.len() as int) * 128 - bytes.len())
}

/// Fragment `i` of `bytes` as `fragment_message` builds it.
pub open spec fn is_fragment_of(f: Fragment, bytes: Seq<u8>, i: int) -> bool {
    &&& f.fragment_index == i
    &&& f.total_n_fragments == fragment_count(bytes.len() as int)
    &&& f.length == chunk_len(bytes.len() as int, i)
    &&& f.data@ == padded_chunk(bytes, i)
}

/// Fragment `i` of `bytes`, a zero-padded slice of it.
pub fn make_fragment(bytes: &Vec<u8>, i: usize, total: usize) -> (f: Fragment)
    requires
        total == fragment_count(bytes.len() as int),
        i < total,
        bytes.len() + 127 <= usize::MAX,
    ensures
        is_fragment_of(f, bytes@, i as int),
{
    let start = i * 128;
    let end = if (i + 1) * 128 < bytes.len() {
        (i + 1) * 128
    } else {
        bytes.len()
    };
    assert(start <= end);
    let chunk_size = end - start;
    assert(chunk_size == chunk_len(bytes.len() as int, i as int));
    let mut data = [0u8; 128];
    let mut j: usize = 0;
    while j < chunk_size
        invariant
            j <= chunk_size,
            chunk_size <= 128,
            start + chunk_size == end,
            end <= bytes.len(),
            forall|k: int| 0 <= k < j ==> data@[k] == bytes@[start + k],
            forall|k: int| chunk_size <= k < 128 ==> data@[k] == 0,
        decreases chunk_size - j,
    {
        data[j] = bytes[start + j];
        j = j + 1;
    }
    let f = Fragment {
        fragment_index: i as u64,
        total_n_fragments: total as u64,
        length: chunk_size as u8,
        data,
    };
    proof {
        assert(f.data@ =~= padded_chunk(bytes@, i as int));
    }
    f
}

/// The packets that carry `bytes` along `path`: one fragment per 128 bytes,
/// every packet routed on `path` with its hop index at the first hop after
/// the sender.
pub fn fragment_message(bytes: &Vec<u8>, path: &Vec<NodeId>, session_id: u64) -> (r: Vec<Packet>)
    requires
        bytes.len() + 127 <= usize::MAX,
    ensures
        r@.len() == fragment_count(bytes@.len() as int),
        forall|i: int|
            0 <= i < r@.len() ==> {
                &&& #[trigger] r@[i].pack_type matches PacketType::MsgFragment(f) && is_fragment_of(f, bytes@, i)
                &&& r@[i].routing_header.hop_index == 1
                &&& r@[i].routing_header.hops@ == path@
                &&& r@[i].session_id == session_id
            },
{
    let total = (bytes.len() + 127) / 128;
    let mut r: Vec<Packet> = Vec::new();
    let mut i: usize = 0;
    while i < total
        invariant
            i <= total,
            total == fragment_count(bytes.len() as int),
            bytes.len() + 127 <= usize::MAX,
            r@.len() == i,
            forall|k: int|
                0 <= k < i ==> {
                    &&& #[trigger] r@[k].pack_type matches PacketType::MsgFragment(f) && is_fragment_of(f, bytes@, k)
                    &&& r@[k].routing_header.hop_index == 1
                    &&& r@[k].routing_header.hops@ == path@
                    &&& r@[k].session_id == session_id
                },
        decreases total - i,
    {
        let fragment = make_fragment(bytes, i, total);
        let packet = Packet::new_fragment(SourceRoutingHeader::new(copy_ids(path), 1), session_id, fragment);
        r.push(packet);
        i = i + 1;
    }
    r
}

/// The bytes of `s` before its first zero byte (all of `s` if it has none).
pub open spec fn before_nul(s: Seq<u8>) -> Seq<u8>
    decreases s.len(),
{
    if s.len() == 0 {
        s
    } else if s[0] == 0 {
        Seq::empty()
    } else {
        seq![s[0]] + before_nul(s.drop_first())
    }
}

/// A prefix of `s` without zero bytes that ends where `s` ends or at a zero
/// byte is what comes before the first zero byte of `s`.
proof fn lemma_before_nul_is(s: Seq<u8>, r: Seq<u8>)
    requires
        r.len() <= s.len(),
        r == s.subrange(0, r.len() as int),
        forall|k: int| 0 <= k < r.len() ==> r[k] != 0,
        r.len() < s.len() ==> s[r.len() as int] == 0,
    ensures
        before_nul(s) == r,
    decreases s.len(),
{
    if s.len() > 0 {
        if r.len() == 0 {
            assert(s[0] == 0);
            assert(before_nul(s) =~= r);
        } else {
            assert(s[0] == r[0]);
            let r1 = r.drop_first();
            let s1 = s.drop_first();
            assert(r1 =~= s1.subrange(0, r1.len() as int));
            assert forall|k: int| 0 <= k < r1.len() implies r1[k] != 0 by {
                assert(r1[k] == r[k + 1]);
            }
            if r1.len() < s1.len() {
                assert(s1[r1.len() as int] == s[r.len() as int]);
            }
            lemma_before_nul_is(s1, r1);
            assert(before_nul(s) =~= r);
        }
    }
}

/// Law of padding: zero bytes appended to a message without zero bytes are
/// all dropped again, however many there are.
pub proof fn law_trailing_zeros_dropped(t: Seq<u8>, z: nat)
    requires
        forall|k: int| 0 <= k < t.len() ==> t[k] != 0,
    ensures
        before_nul(t + zeros(z as int)) == t,
{
    let s = t + zeros(z as int);
    assert(s.subrange(0, t.len() as int) =~= t);
    if t.len() < s.len() {
        assert(s[t.len() as int] == 0);
    }
    lemma_before_nul_is(s, t);
}

/// The bytes of an assembled message before its first zero byte: the
/// serialized text without the padding of its last fragment.
pub fn payload_before_nul(data: &Vec<u8>) -> (r: Vec<u8>)
    ensures
        r@ == before_nul(data@),
        r@.len() <= data@.len(),
        r@ == data@.subrange(0, r@.len() as int),
        forall|k: int| 0 <= k < r@.len() ==> r@[k] != 0,
        r@.len() < data@.len() ==> data@[r@.len() as int] == 0,
{
    let mut r: Vec<u8> = Vec::new();
    let mut i: usize = 0;
    while i < data.len() && data[i] != 0
        invariant
            i <= data.len(),
            r@ == data@.subrange(0, i as int),
            forall|k: int| 0 <= k < i ==> data@[k] != 0,
        decreases data.len() - i,
    {
        r.push(data[i]);
        i = i + 1;
        proof {
            assert(r@ =~= data@.subrange(0, i as int));
        }
    }
    proof {
        lemma_before_nul_is(data@, r@);
    }
    r
}

} // verus!
