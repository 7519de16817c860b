use crate::index::posting_view;
use crate::resource::{IndexedResource, ResourceView};
use itertools::Itertools;
use vstd::prelude::*;

verus! {

/// Higher priority first.
pub open spec fn by_priority(s: Seq<ResourceView>) -> bool {
    forall|i: int, j: int| 0 <= i < j < s.len() ==> (#[trigger] s[i]).priority >= (#[trigger] s[j]).priority
}

/// `pos` lists every position below `n` exactly once.
pub open spec fn is_permutation(pos: Seq<int>, n: int) -> bool {
    &&& pos.len() == n
    &&& forall|i: int| 0 <= i < n ==> 0 <= #[trigger] pos[i] < n
    &&& forall|i: int, j: int| 0 <= i < n && 0 <= j < n && i != j ==> pos[i] != pos[j]
}

/// `out` is `inp` in presentation order: the same entries, higher priority
/// first, and entries of equal priority in their order in `inp`.
pub open spec fn presentation_order(out: Seq<ResourceView>, inp: Seq<ResourceView>) -> bool {
    &&& out.len() == inp.len()
    &&& by_priority(out)
    &&& exists|pos: Seq<int>|
        {
            &&& is_permutation(pos, inp.len() as int)
            &&& forall|i: int| 0 <= i < pos.len() ==> out[i] == inp[#[trigger] pos[i]]
            &&& forall|i: int, j: int|
                0 <= i < j < pos.len() && out[i].priority == out[j].priority ==> pos[i] < pos[j]
        }
}

/// Relies on itertools' `Itertools::sorted_by_key`, a stable sort, over the
/// positions `0..n` keyed by their priority in reverse: the positions in order
/// of falling priority, ties in rising position.
#[verifier::external_body]
fn positions_by_priority(priorities: &Vec<u32>) -> (r: Vec<usize>)
    ensures
        r@.len() == priorities@.len(),
        forall|i: int| 0 <= i < r@.len() ==> r@[i] < priorities@.len(),
        forall|i: int, j: int| 0 <= i < r@.len() && 0 <= j < r@.len() && i != j ==> r@[i] != r@[j],
        forall|i: int, j: int|
            0 <= i < j < r@.len() ==> priorities@[r@[i] as int] >= priorities@[r@[j] as int],
        forall|i: int, j: int|
            0 <= i < j < r@.len() && priorities@[r@[i] as int] == priorities@[r@[j] as int]
                ==> r@[i] < r@[j],
{
    (0..priorities.len()).sorted_by_key(|&i| std::cmp::Reverse(priorities[i])).collect()
}

/// The results in presentation order: higher priority first; entries of equal
/// priority keep their order.
pub fn sort_by_priority(results: &Vec<IndexedResource>) -> (r: Vec<IndexedResource>)
    ensures
        presentation_order(posting_view(r@), posting_view(results@)),
{
    let ghost rs = posting_view(results@);
    let mut priorities: Vec<u32> = Vec::new();
    let mut k: usize = 0;
    while k < results.len()
        invariant
            k <= results.len(),
            priorities@.len() == k,
            forall|j: int| 0 <= j < k ==> priorities@[j] == results@[j].priority,
        decreases results.len() - k,
    {
        priorities.push(results[k].priority);
        k += 1;
    }
    let pos = positions_by_priority(&priorities);
    let mut out: Vec<IndexedResource> = Vec::new();
    let mut i: usize = 0;
    while i < pos.len()
        invariant
            rs == posting_view(results@),
            pos@.len() == results@.len(),
            priorities@.len() == results@.len(),
            forall|j: int| 0 <= j < priorities@.len() ==> priorities@[j] == results@[j].priority,
            forall|j: int| 0 <= j < pos@.len() ==> pos@[j] < results@.len(),
            i <= pos.len(),
            posting_view(out@).len() == i,
            forall|j: int| 0 <= j < i ==> posting_view(out@)[j] == rs[pos@[j] as int],
        decreases pos.len() - i,
    {
        let ghost before = out@;
        out.push(results[pos[i]].duplicate());
        assert(posting_view(out@) =~= posting_view(before).push(rs[pos@[i as int] as int]));
        i += 1;
    }
    let ghost ov = posting_view(out@);
    let ghost ps = pos@.map_values(|p: usize| p as int);
    assert(forall|j: int| 0 <= j < ps.len() ==> ov[j] == rs[#[trigger] ps[j]]);
    assert(forall|j: int| 0 <= j < ov.len() ==> (#[trigger] ov[j]).priority == priorities@[pos@[j] as int]);
    assert(is_permutation(ps, rs.len() as int));
    out
}

} // verus!
