use crate::index::{has_url, posting_view, unique_urls, upsert, url_index, Posting};
use crate::resource::IndexedResource;
use vstd::hash_map::StringHashMap;
use vstd::prelude::*;

verus! {

/// The entries of one stemmed word, at most one per url, in the order their
/// urls first arrived; `positions` finds an entry by its url.
pub struct PostingSet {
    entries: Vec<IndexedResource>,
    positions: StringHashMap<usize>,
}

impl View for PostingSet {
    type V = Posting;

    closed spec fn view(&self) -> Posting {
        posting_view(self.entries@)
    }
}

impl PostingSet {
    pub closed spec fn well_formed(&self) -> bool {
        &&& forall|u: Seq<char>| #[trigger]
            self.positions@.contains_key(u) ==> self.positions@[u] < self.entries@.len()
                && self.entries@[self.positions@[u] as int].url@ == u
        &&& forall|i: int|
            0 <= i < self.entries@.len() ==> self.positions@.contains_key(
                (#[trigger] self.entries@[i]).url@,
            ) && self.positions@[self.entries@[i].url@] == i
    }

    proof fn lemma_unique(&self)
        requires
            self.well_formed(),
        ensures
            unique_urls(self@),
            forall|u: Seq<char>| #[trigger] has_url(self@, u) <==> self.positions@.contains_key(u),
    {
        assert forall|i: int, j: int|
            0 <= i < self@.len() && 0 <= j < self@.len() && i != j implies (#[trigger] self@[i]).url
            != (#[trigger] self@[j]).url by {
            assert(self@[i] == self.entries@[i]@);
            assert(self@[j] == self.entries@[j]@);
            assert(self.positions@[self.entries@[i].url@] == i);
            assert(self.positions@[self.entries@[j].url@] == j);
        }
        assert forall|u: Seq<char>| #[trigger] has_url(self@, u) <==> self.positions@.contains_key(
            u,
        ) by {
            if self.positions@.contains_key(u) {
                let k = self.positions@[u] as int;
                assert(self@[k] == self.entries@[k]@);
                assert(self@[k].url == u);
            }
            if has_url(self@, u) {
                let k = choose|k: int| 0 <= k < self@.len() && (#[trigger] self@[k]).url == u;
                assert(self@[k] == self.entries@[k]@);
            }
        }
    }

    /// A well-formed set holds at most one entry per url.
    pub proof fn lemma_one_per_url(&self)
        requires
            self.well_formed(),
        ensures
            unique_urls(self@),
    {
        self.lemma_unique();
    }

    /// The set holding only `r`.
    pub fn single(r: IndexedResource) -> (s: PostingSet)
        ensures
            s.well_formed(),
            s@ == seq![r@],
    {
        let mut positions = StringHashMap::new();
        positions.insert(r.url.clone(), 0);
        let mut entries: Vec<IndexedResource> = Vec::new();
        entries.push(r);
        let s = PostingSet { entries, positions };
        assert(s@ =~= seq![s.entries@[0]@]);
        s
    }

    /// Whether some entry has the url `u`.
    pub fn contains_url(&self, u: &str) -> (b: bool)
        requires
            self.well_formed(),
        ensures
            b == has_url(self@, u@),
    {
        proof {
            self.lemma_unique();
        }
        self.positions.contains_key(u)
    }

    /// The entries, in order.
    pub fn entries(&self) -> (v: &Vec<IndexedResource>)
        ensures
            posting_view(v@) == self@,
    {
        &self.entries
    }

    /// Puts `r` in place of the entry with its url, or after the others.
    pub fn upsert(&mut self, r: IndexedResource)
        requires
            old(self).well_formed(),
        ensures
            final(self).well_formed(),
            final(self)@ == upsert(old(self)@, r@),
    {
        proof {
            self.lemma_unique();
        }
        let ghost before = self@;
        let found: Option<usize> = match self.positions.get(r.url.as_str()) {
            Some(i) => Some(*i),
            None => None,
        };
        match found {
            Some(i) => {
                assert(before[i as int] == self.entries@[i as int]@);
                assert(has_url(before, r@.url));
                let ghost k = url_index(before, r@.url);
                assert(before[k].url == r@.url);
                assert(k == i);
                self.entries[i] = r;
                assert(self@ =~= upsert(before, r@));
            },
            None => {
                let n = self.entries.len();
                self.positions.insert(r.url.clone(), n);
                self.entries.push(r);
                assert(self@ =~= upsert(before, r@));
            },
        }
    }
}

} // verus!
