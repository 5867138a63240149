//! How the servers of a network get their roles, and the content servers
//! their files.
use vstd::prelude::*;
use crate::message::{ContentType, ServerType};
use crate::random::shuffle;

verus! {

/// How many servers serve content; the others are communication servers.
pub const NUM_CONTENT_SERVERS: usize = 4;

/// Where part `i` of `count` parts of a list of `len` items starts.
pub open spec fn part_start(len: int, count: int, i: int) -> int {
    i * len / count
}

/// Part `i` of `files` split into `count` consecutive parts of nearly equal size.
pub open spec fn part(files: Seq<u64>, count: int, i: int) -> Seq<u64> {
    files.subrange(part_start(files.len() as int, count, i), part_start(files.len() as int, count, i + 1))
}

proof fn lemma_part_bounds(len: int, count: int, i: int)
    requires
        len >= 0,
        count >= 1,
        0 <= i <= count,
    ensures
        0 <= part_start(len, count, i) <= len,
        i < count ==> part_start(len, count, i) <= part_start(len, count, i + 1),
        part_start(len, count, 0) == 0,
        part_start(len, count, count) == len,
{
    assert(0 <= i * len <= count * len) by (nonlinear_arith)
        requires
            len >= 0,
            0 <= i <= count,
    ;
    assert(i * len / count <= len) by (nonlinear_arith)
        requires
            len >= 0,
            count >= 1,
            0 <= i * len <= count * len,
    ;
    assert(0 <= i * len / count) by (nonlinear_arith)
        requires
            count >= 1,
            0 <= i * len,
    ;
    if i < count {
        assert(i * len <= (i + 1) * len) by (nonlinear_arith)
            requires
                len >= 0,
        ;
        assert(i * len / count <= (i + 1) * len / count) by (nonlinear_arith)
            requires
                count >= 1,
                0 <= i * len <= (i + 1) * len,
        ;
    }
    assert(0 * len / count == 0) by (nonlinear_arith)
        requires
            count >= 1,
    ;
    assert(count * len / count == len) by (nonlinear_arith)
        requires
            count >= 1,
    ;
}

/// The parts of `files` split into `count` parts.
pub fn split_files(files: &Vec<u64>, count: usize) -> (r: Vec<Vec<u64>>)
    requires
        count >= 1,
        count * files.len() <= usize::MAX,
    ensures
        r@.len() == count,
        forall|i: int| 0 <= i < count ==> #[trigger] r@[i]@ == part(files@, count as int, i),
{
    let len = files.len();
    let mut r: Vec<Vec<u64>> = Vec::new();
    let mut i: usize = 0;
    while i < count
        invariant
            i <= count,
            count >= 1,
            len == files.len(),
            count * len <= usize::MAX,
            r@.len() == i,
            forall|k: int| 0 <= k < i ==> #[trigger] r@[k]@ == part(files@, count as int, k),
        decreases count - i,
    {
        proof {
            lemma_part_bounds(len as int, count as int, i as int);
            lemma_part_bounds(len as int, count as int, i + 1);
            assert(i * len <= count * len) by (nonlinear_arith)
                requires
                    i < count,
            ;
            assert((i + 1) * len <= count * len) by (nonlinear_arith)
                requires
                    i < count,
            ;
        }
        let start = i * len / count;
        let end = (i + 1) * len / count;
        let mut p: Vec<u64> = Vec::new();
        let mut j: usize = start;
        while j < end
            invariant
                start <= j <= end,
                end <= len,
                len == files.len(),
                p@ == files@.subrange(start as int, j as int),
            decreases end - j,
        {
            p.push(files[j]);
            j = j + 1;
            proof {
                assert(p@ =~= files@.subrange(start as int, j as int));
            }
        }
        r.push(p);
        i = i + 1;
    }
    r
}

/// The roles of `n` servers before they are shuffled: two text servers and
/// two media servers, each with its part of the files, then communication
/// servers with no file.
pub open spec fn assignment_spec(text: Seq<u64>, media: Seq<u64>, n: int, i: int) -> (ServerType, Seq<u64>) {
    if i < 2 {
        (ServerType::ContentServer(ContentType::Text), part(text, 2, i))
    } else if i < 4 {
        (ServerType::ContentServer(ContentType::Media), part(media, 2, i - 2))
    } else {
        (ServerType::CommunicationServer, Seq::empty())
    }
}

/// The roles and files of `n` servers (see `assignment_spec`).
pub fn assign_servers(text_files: &Vec<u64>, media_files: &Vec<u64>, n: usize) -> (r: Vec<(ServerType, Vec<u64>)>)
    requires
        n >= NUM_CONTENT_SERVERS,
        2 * text_files.len() <= usize::MAX,
        2 * media_files.len() <= usize::MAX,
    ensures
        r@.len() == n,
        forall|i: int| 0 <= i < n ==> (#[trigger] r@[i]).0 == assignment_spec(text_files@, media_files@, n as int, i).0
            && r@[i].1@ == assignment_spec(text_files@, media_files@, n as int, i).1,
{
    let text_parts = split_files(text_files, 2);
    let media_parts = split_files(media_files, 2);
    let mut r: Vec<(ServerType, Vec<u64>)> = Vec::new();
    let mut i: usize = 0;
    while i < n
        invariant
            i <= n,
            n >= 4,
            text_parts@.len() == 2,
            media_parts@.len() == 2,
            forall|k: int| 0 <= k < 2 ==> #[trigger] text_parts@[k]@ == part(text_files@, 2, k),
            forall|k: int| 0 <= k < 2 ==> #[trigger] media_parts@[k]@ == part(media_files@, 2, k),
            r@.len() == i,
            forall|k: int| 0 <= k < i ==> (#[trigger] r@[k]).0 == assignment_spec(text_files@, media_files@, n as int, k).0
                && r@[k].1@ == assignment_spec(text_files@, media_files@, n as int, k).1,
        decreases n - i,
    {
        let entry = if i < 2 {
            (ServerType::ContentServer(ContentType::Text), text_parts[i].clone())
        } else if i < 4 {
            (ServerType::ContentServer(ContentType::Media), media_parts[i - 2].clone())
        } else {
            (ServerType::CommunicationServer, Vec::new())
        };
        r.push(entry);
        i = i + 1;
    }
    r
}

/// The positions `0..n`.
pub open spec fn indices(n: int) -> Seq<usize> {
    Seq::new(n as nat, |i: int| i as usize)
}

/// The roles and files of `n` servers: the files of each kind are shuffled,
/// split between the content servers of that kind (see `assignment_spec`),
/// and the roles are dealt to the servers in a shuffled order. Whatever the
/// shuffles gave, the files are a reordering of the given ones and the
/// roles a reordering of the `n` roles.
pub fn distribute_files(text_files: &Vec<u64>, media_files: &Vec<u64>, n: usize) -> (r: Vec<(ServerType, Vec<u64>)>)
    requires
        n >= NUM_CONTENT_SERVERS,
        2 * text_files.len() <= usize::MAX,
        2 * media_files.len() <= usize::MAX,
    ensures
        r@.len() == n,
        exists|t: Seq<u64>, m: Seq<u64>, p: Seq<usize>|
            #![trigger t.to_multiset(), m.to_multiset(), p.to_multiset()]
            {
                &&& t.to_multiset() == text_files@.to_multiset()
                &&& m.to_multiset() == media_files@.to_multiset()
                &&& p.to_multiset() == indices(n as int).to_multiset()
                &&& p.len() == n
                &&& forall|i: int|
                    0 <= i < n ==> (#[trigger] r@[i]).0 == assignment_spec(t, m, n as int, p[i] as int).0
                        && r@[i].1@ == assignment_spec(t, m, n as int, p[i] as int).1
            },
{
    let mut t = text_files.clone();
    shuffle(&mut t);
    let mut m = media_files.clone();
    shuffle(&mut m);
    proof {
        t@.to_multiset_ensures();
        text_files@.to_multiset_ensures();
        m@.to_multiset_ensures();
        media_files@.to_multiset_ensures();
    }
    let roles = assign_servers(&t, &m, n);
    let mut order: Vec<usize> = Vec::new();
    let mut i: usize = 0;
    while i < n
        invariant
            i <= n,
            order@ == indices(i as int),
        decreases n - i,
    {
        order.push(i);
        proof {
            assert(order@ =~= indices(i + 1));
        }
        i = i + 1;
    }
    let ghost before = order@;
    shuffle(&mut order);
    proof {
        order@.to_multiset_ensures();
        before.to_multiset_ensures();
        assert forall|k: int| 0 <= k < order@.len() implies #[trigger] order@[k] < n by {
            assert(order@.contains(order@[k]));
            assert(order@.to_multiset().count(order@[k]) > 0);
            assert(before.to_multiset().count(order@[k]) > 0);
            assert(before.contains(order@[k]));
            let j = choose|j: int| 0 <= j < before.len() && before[j] == order@[k];
            assert(before[j] == j as usize);
        }
    }
    let mut r: Vec<(ServerType, Vec<u64>)> = Vec::new();
    let mut j: usize = 0;
    while j < n
        invariant
            j <= n,
            order@.len() == n,
            roles@.len() == n,
            forall|k: int| 0 <= k < order@.len() ==> #[trigger] order@[k] < n,
            forall|k: int| 0 <= k < n ==> (#[trigger] roles@[k]).0 == assignment_spec(t@, m@, n as int, k).0
                && roles@[k].1@ == assignment_spec(t@, m@, n as int, k).1,
            r@.len() == j,
            forall|k: int| 0 <= k < j ==> (#[trigger] r@[k]).0 == assignment_spec(t@, m@, n as int, order@[k] as int).0
                && r@[k].1@ == assignment_spec(t@, m@, n as int, order@[k] as int).1,
        decreases n - j,
    {
        let k = order[j];
        assert(k < n);
        let files = roles[k].1.clone();
        r.push((roles[k].0, files));
        j = j + 1;
    }
    proof {
        assert(t@.to_multiset() == text_files@.to_multiset());
        assert(m@.to_multiset() == media_files@.to_multiset());
        assert(order@.to_multiset() == indices(n as int).to_multiset());
    }
    r
}

/// Law: the parts of a split, put back together in order, are the whole
/// list.
pub proof fn law_split_is_partition(files: Seq<u64>, count: int)
    requires
        count >= 1,
    ensures
        Seq::new(count as nat, |i: int| part(files, count, i)).flatten() == files,
{
    lemma_parts_from(files, count, 0);
    lemma_part_bounds(files.len() as int, count, 0);
    assert(files.subrange(0, files.len() as int) =~= files);
    assert(Seq::new(count as nat, |i: int| part(files, count, i)).subrange(0, count) =~= Seq::new(
        count as nat,
        |i: int| part(files, count, i),
    ));
}

proof fn lemma_parts_from(files: Seq<u64>, count: int, j: int)
    requires
        count >= 1,
        0 <= j <= count,
    ensures
        Seq::new(count as nat, |i: int| part(files, count, i)).subrange(j, count).flatten() == files.subrange(
            part_start(files.len() as int, count, j),
            files.len() as int,
        ),
    decreases count - j,
{
    let len = files.len() as int;
    let s = Seq::new(count as nat, |i: int| part(files, count, i));
    lemma_part_bounds(len, count, j);
    lemma_part_bounds(len, count, count);
    if j == count {
        assert(s.subrange(j, count) =~= Seq::<Seq<u64>>::empty());
        assert(files.subrange(len, len) =~= Seq::<u64>::empty());
    } else {
        lemma_parts_from(files, count, j + 1);
        lemma_part_bounds(len, count, j + 1);
        let t = s.subrange(j, count);
        assert(t.drop_first() =~= s.subrange(j + 1, count));
        assert(t[0] == part(files, count, j));
        assert(t.flatten() == t[0] + t.drop_first().flatten());
        assert(files.subrange(part_start(len, count, j), len) =~= part(files, count, j) + files.subrange(
            part_start(len, count, j + 1),
            len,
        ));
    }
}

} // verus!
