use crate::resource::{copy_opt, opt_view, IndexedResource, ResourceView};
use crate::text::{english_stem, whitespace, lemma_split_two_words, lower_word, query_keys, query_terms, split_words, stem, views};
use std::sync::Arc;
use crate::posting::PostingSet;
use vstd::hash_map::StringHashMap;
use vstd::std_specs::cmp::PartialEqSpec;
use vstd::prelude::*;

verus! {

/// The posting set of a word: one entry per url.
pub type Posting = Seq<ResourceView>;

/// The index store: stemmed word to its posting set.
pub type Store = Map<Seq<char>, Posting>;

/// Whether some entry of `p` has the url `u`.
pub open spec fn has_url(p: Posting, u: Seq<char>) -> bool {
    exists|i: int| 0 <= i < p.len() && (#[trigger] p[i]).url == u
}

/// No two entries of `p` share a url.
pub open spec fn unique_urls(p: Posting) -> bool {
    forall|i: int, j: int| 0 <= i < p.len() && 0 <= j < p.len() && i != j ==> (#[trigger] p[i]).url
        != (#[trigger] p[j]).url
}

/// The position of an entry of `p` with the url `u`.
pub open spec fn url_index(p: Posting, u: Seq<char>) -> int {
    choose|i: int| 0 <= i < p.len() && (#[trigger] p[i]).url == u
}

/// Puts `r` into a posting set: it takes the place of the entry with the same
/// url, or joins the set at its end.
pub open spec fn upsert(p: Posting, r: ResourceView) -> Posting {
    if has_url(p, r.url) {
        p.update(url_index(p, r.url), r)
    } else {
        p.push(r)
    }
}

/// The posting set of `key`, empty where the store has none.
pub open spec fn posting_of(db: Store, key: Seq<char>) -> Posting {
    if db.contains_key(key) {
        db[key]
    } else {
        Seq::empty()
    }
}

/// The store after `r` is merged into the posting set of `key`.
pub open spec fn add_entry(db: Store, key: Seq<char>, r: ResourceView) -> Store {
    db.insert(key, upsert(posting_of(db, key), r))
}

/// How many times `w` occurs in `words`.
pub open spec fn occurrences(words: Seq<Seq<char>>, w: Seq<char>) -> nat
    decreases words.len(),
{
    if words.len() == 0 {
        0
    } else {
        occurrences(words.drop_last(), w) + if words.last() == w {
            1nat
        } else {
            0nat
        }
    }
}

/// A page as the index sees it: its url, its metadata and its word sequence.
pub struct PageView {
    pub url: Seq<char>,
    pub title: Option<Seq<char>>,
    pub description: Option<Seq<char>>,
    pub language: Option<Seq<char>>,
    pub words: Seq<Seq<char>>,
}

/// The entry of `page` for its word `w`; its priority is the number of
/// occurrences of `w` on the page.
pub open spec fn entry(page: PageView, w: Seq<char>) -> ResourceView {
    ResourceView {
        url: page.url,
        title: page.title,
        description: page.description,
        priority: occurrences(page.words, w) as u32,
        word: w,
        language: page.language,
    }
}

/// The store after the entries of `page` for the words `todo` were merged in,
/// in order, each under the stem of its word.
pub open spec fn add_words(db: Store, page: PageView, todo: Seq<Seq<char>>) -> Store
    decreases todo.len(),
{
    if todo.len() == 0 {
        db
    } else {
        let w = todo.last();
        add_entry(add_words(db, page, todo.drop_last()), english_stem(w), entry(page, w))
    }
}

/// The store after ingesting `page`.
pub open spec fn add_page(db: Store, page: PageView) -> Store {
    add_words(db, page, page.words)
}

/// The entries of `acc` whose url also has an entry in `other`.
pub open spec fn keep_shared(acc: Posting, other: Posting) -> Posting
    decreases acc.len(),
{
    if acc.len() == 0 {
        acc
    } else {
        let kept = keep_shared(acc.drop_last(), other);
        if has_url(other, acc.last().url) {
            kept.push(acc.last())
        } else {
            kept
        }
    }
}

/// The posting set of the first key, narrowed by each later key in turn.
pub open spec fn intersect_all(db: Store, keys: Seq<Seq<char>>) -> Posting
    decreases keys.len(),
{
    if keys.len() == 0 {
        Seq::empty()
    } else if keys.len() == 1 {
        posting_of(db, keys[0])
    } else {
        keep_shared(intersect_all(db, keys.drop_last()), posting_of(db, keys.last()))
    }
}

/// Every key has a posting set.
pub open spec fn all_present(db: Store, keys: Seq<Seq<char>>) -> bool {
    forall|i: int| 0 <= i < keys.len() ==> db.contains_key(#[trigger] keys[i])
}

/// What a query for the index keys `keys` finds: nothing when a key is
/// missing, else the entries of the first key whose url every key has.
pub open spec fn search_keys(db: Store, keys: Seq<Seq<char>>) -> Posting {
    if all_present(db, keys) {
        intersect_all(db, keys)
    } else {
        Seq::empty()
    }
}

/// The values of a sequence of entries.
pub open spec fn posting_view(v: Seq<IndexedResource>) -> Posting {
    v.map_values(|r: IndexedResource| r@)
}

/// Every posting set of the store holds at most one entry per url.
pub open spec fn store_unique(db: Store) -> bool {
    forall|k: Seq<char>| db.contains_key(k) ==> unique_urls(#[trigger] db[k])
}

/// The urls that have an entry in `p`.
pub open spec fn urls(p: Posting) -> Set<Seq<char>> {
    Set::new(|u: Seq<char>| has_url(p, u))
}

proof fn lemma_upsert_urls(p: Posting, r: ResourceView, u: Seq<char>)
    ensures
        has_url(upsert(p, r), u) <==> has_url(p, u) || u == r.url,
{
    if has_url(p, r.url) {
        let k = url_index(p, r.url);
        let q = upsert(p, r);
        assert(q[k].url == r.url);
        if has_url(p, u) {
            let j = choose|j: int| 0 <= j < p.len() && (#[trigger] p[j]).url == u;
            if j == k {
                assert(q[k].url == u);
            } else {
                assert(q[j].url == u);
            }
        }
        if has_url(q, u) {
            let j = choose|j: int| 0 <= j < q.len() && (#[trigger] q[j]).url == u;
            if j != k {
                assert(p[j].url == u);
            }
        }
    } else {
        let q = upsert(p, r);
        assert(q[p.len() as int].url == r.url);
        if has_url(p, u) {
            let j = choose|j: int| 0 <= j < p.len() && (#[trigger] p[j]).url == u;
            assert(q[j].url == u);
        }
        if has_url(q, u) {
            let j = choose|j: int| 0 <= j < q.len() && (#[trigger] q[j]).url == u;
            if j < p.len() {
                assert(p[j].url == u);
            }
        }
    }
}

proof fn lemma_keep_shared_urls(acc: Posting, other: Posting, u: Seq<char>)
    ensures
        has_url(keep_shared(acc, other), u) <==> has_url(acc, u) && has_url(other, u),
    decreases acc.len(),
{
    if acc.len() > 0 {
        let init = acc.drop_last();
        lemma_keep_shared_urls(init, other, u);
        let kept = keep_shared(init, other);
        if has_url(acc, u) && has_url(other, u) {
            let j = choose|j: int| 0 <= j < acc.len() && (#[trigger] acc[j]).url == u;
            if j < init.len() {
                assert(init[j].url == u);
            }
            if has_url(other, acc.last().url) {
                assert(kept.push(acc.last())[kept.len() as int] == acc.last());
            }
            if has_url(kept, u) && has_url(other, acc.last().url) {
                let m = choose|m: int| 0 <= m < kept.len() && (#[trigger] kept[m]).url == u;
                assert(kept.push(acc.last())[m] == kept[m]);
            }
        }
        if has_url(keep_shared(acc, other), u) {
            let res = keep_shared(acc, other);
            let m = choose|m: int| 0 <= m < res.len() && (#[trigger] res[m]).url == u;
            if has_url(other, acc.last().url) && m == kept.len() {
                assert(acc[acc.len() - 1].url == u);
            } else {
                assert(kept[m].url == u);
                let j = choose|j: int| 0 <= j < init.len() && (#[trigger] init[j]).url == u;
                assert(acc[j].url == u);
            }
        }
    }
}

proof fn lemma_keep_shared_unique(acc: Posting, other: Posting)
    requires
        unique_urls(acc),
    ensures
        unique_urls(keep_shared(acc, other)),
    decreases acc.len(),
{
    if acc.len() > 0 {
        let init = acc.drop_last();
        assert forall|i: int, j: int|
            0 <= i < init.len() && 0 <= j < init.len() && i != j implies (#[trigger] init[i]).url
            != (#[trigger] init[j]).url by {
            assert(init[i] == acc[i] && init[j] == acc[j]);
        }
        lemma_keep_shared_unique(init, other);
        let kept = keep_shared(init, other);
        if has_url(other, acc.last().url) {
            lemma_keep_shared_urls(init, other, acc.last().url);
            if has_url(init, acc.last().url) {
                let j = choose|j: int| 0 <= j < init.len() && (#[trigger] init[j]).url == acc.last().url;
                assert(acc[j].url == acc[acc.len() - 1].url);
            }
            let res = kept.push(acc.last());
            assert forall|i: int, j: int|
                0 <= i < res.len() && 0 <= j < res.len() && i != j implies (#[trigger] res[i]).url
                != (#[trigger] res[j]).url by {
                if i == kept.len() {
                    assert(kept[j].url == res[j].url);
                } else if j == kept.len() {
                    assert(kept[i].url == res[i].url);
                } else {
                    assert(kept[i] == res[i] && kept[j] == res[j]);
                }
            }
        }
    }
}

/// Two entries with the same url are one entry: they compare equal whatever
/// their other fields, and putting both into a posting set leaves one entry,
/// the later one.
pub proof fn lemma_equal_by_url(a: IndexedResource, b: IndexedResource)
    requires
        a.url@ == b.url@,
    ensures
        a.eq_spec(&b),
        upsert(upsert(Seq::empty(), a@), b@) == seq![b@],
{
    let one = upsert(Seq::empty(), a@);
    assert(!has_url(Seq::empty(), a@.url));
    assert(one[0].url == b@.url);
    assert(has_url(one, b@.url));
    assert(upsert(one, b@) =~= seq![b@]);
}

/// Putting an entry into a posting set with one entry per url keeps one entry
/// per url, and the entry for its url is the new one.
pub proof fn lemma_upsert_replaces(p: Posting, r: ResourceView)
    requires
        unique_urls(p),
    ensures
        unique_urls(upsert(p, r)),
        has_url(upsert(p, r), r.url),
        forall|i: int| 0 <= i < upsert(p, r).len() && (#[trigger] upsert(p, r)[i]).url == r.url ==> upsert(p, r)[i] == r,
{
    let q = upsert(p, r);
    lemma_upsert_urls(p, r, r.url);
    if has_url(p, r.url) {
        let k = url_index(p, r.url);
        assert forall|i: int| 0 <= i < q.len() && (#[trigger] q[i]).url == r.url implies q[i] == r by {
            if i != k {
                assert(p[i].url == r.url && p[k].url == r.url);
            }
        }
        assert forall|i: int, j: int|
            0 <= i < q.len() && 0 <= j < q.len() && i != j implies (#[trigger] q[i]).url != (#[trigger] q[j]).url by {
            if i == k {
                assert(q[j] == p[j]);
                assert(p[j].url != p[k].url);
            } else if j == k {
                assert(q[i] == p[i]);
                assert(p[i].url != p[k].url);
            } else {
                assert(q[i] == p[i] && q[j] == p[j]);
            }
        }
    } else {
        assert forall|i: int| 0 <= i < q.len() && (#[trigger] q[i]).url == r.url implies q[i] == r by {
            if i < p.len() {
                assert(p[i].url == r.url);
            }
        }
        assert forall|i: int, j: int|
            0 <= i < q.len() && 0 <= j < q.len() && i != j implies (#[trigger] q[i]).url != (#[trigger] q[j]).url by {
            if i == p.len() {
                assert(q[j] == p[j]);
                assert(p[j].url == q[j].url);
            } else if j == p.len() {
                assert(q[i] == p[i]);
                assert(p[i].url == q[i].url);
            } else {
                assert(q[i] == p[i] && q[j] == p[j]);
            }
        }
    }
}

/// A query for two stemmed words that both have posting sets finds the urls
/// that each word alone finds, and no others.
pub proof fn lemma_search_is_intersection(db: Store, a: Seq<char>, b: Seq<char>)
    requires
        a != b,
        db.contains_key(a),
        db.contains_key(b),
    ensures
        urls(search_keys(db, seq![a, b])) == urls(search_keys(db, seq![a])).intersect(
            urls(search_keys(db, seq![b])),
        ),
{
    let ab = seq![a, b];
    assert(all_present(db, ab));
    assert(all_present(db, seq![a]));
    assert(all_present(db, seq![b]));
    assert(ab.drop_last() =~= seq![a]);
    assert forall|u: Seq<char>|
        urls(search_keys(db, ab)).contains(u) <==> urls(search_keys(db, seq![a])).intersect(
            urls(search_keys(db, seq![b])),
        ).contains(u) by {
        lemma_keep_shared_urls(db[a], db[b], u);
    }
    assert(urls(search_keys(db, ab)) =~= urls(search_keys(db, seq![a])).intersect(
        urls(search_keys(db, seq![b])),
    ));
}

/// A query of two words joined by a space, whose stems both have posting sets
/// and differ, finds the urls that each word alone finds, and no others.
pub proof fn lemma_two_word_query(db: Store, a: Seq<char>, b: Seq<char>)
    requires
        a.len() > 0,
        b.len() > 0,
        forall|i: int| 0 <= i < a.len() ==> !whitespace(#[trigger] a[i]),
        forall|i: int| 0 <= i < b.len() ==> !whitespace(#[trigger] b[i]),
        english_stem(lower_word(a)) != english_stem(lower_word(b)),
        db.contains_key(english_stem(lower_word(a))),
        db.contains_key(english_stem(lower_word(b))),
    ensures
        urls(search_keys(db, query_keys(a + seq![' '] + b))) == urls(
            search_keys(db, query_keys(a)),
        ).intersect(urls(search_keys(db, query_keys(b)))),
{
    let ka = english_stem(lower_word(a));
    let kb = english_stem(lower_word(b));
    lemma_split_two_words(a, b);
    lemma_split_two_words(b, a);
    assert(query_keys(a) =~= seq![ka]);
    assert(query_keys(b) =~= seq![kb]);
    assert(query_keys(a + seq![' '] + b) =~= seq![ka, kb]);
    lemma_search_is_intersection(db, ka, kb);
}

/// A query with a word that has no posting set finds nothing, whatever its
/// other words find.
pub proof fn lemma_miss_is_empty(db: Store, keys: Seq<Seq<char>>, i: int)
    requires
        0 <= i < keys.len(),
        !db.contains_key(keys[i]),
    ensures
        search_keys(db, keys) == Seq::<ResourceView>::empty(),
{
}

proof fn lemma_add_words_reaches(db: Store, page: PageView, todo: Seq<Seq<char>>, j: int)
    requires
        0 <= j < todo.len(),
    ensures
        add_words(db, page, todo).contains_key(english_stem(todo[j])),
        has_url(add_words(db, page, todo)[english_stem(todo[j])], page.url),
    decreases todo.len(),
{
    let init = todo.drop_last();
    let before = add_words(db, page, init);
    let key = english_stem(todo.last());
    let k = english_stem(todo[j]);
    lemma_upsert_urls(posting_of(before, key), entry(page, todo.last()), page.url);
    if j < todo.len() - 1 {
        assert(init[j] == todo[j]);
        lemma_add_words_reaches(db, page, init, j);
        if k == key {
            assert(posting_of(before, key) == before[key]);
        }
    }
}

/// Ingesting a page and then querying a single word that, lowercased, stems
/// like one of the page's words finds the page.
pub proof fn lemma_stemmed_query_finds_page(db: Store, page: PageView, i: int, term: Seq<char>)
    requires
        0 <= i < page.words.len(),
        split_words(term).len() == 1,
        english_stem(lower_word(split_words(term)[0])) == english_stem(page.words[i]),
    ensures
        urls(search_keys(add_page(db, page), query_keys(term))).contains(page.url),
{
    lemma_add_words_reaches(db, page, page.words, i);
    let keys = query_keys(term);
    assert(keys =~= seq![english_stem(page.words[i])]);
    assert(all_present(add_page(db, page), keys));
}

/// A store of pages that answers queries.
pub trait Indexer {
    spec fn well_formed(&self) -> bool;

    /// The posting set of each stemmed word.
    spec fn store(&self) -> Store;

    /// Merges the entries of a page into the store, one for each of its words.
    /// Fails, leaving the store as it was, when the page has more words than a
    /// priority can count.
    fn insert(
        &mut self,
        words: &[String],
        url: &str,
        title: &Option<String>,
        description: &Option<String>,
        language: &Option<String>,
        content: &str,
    ) -> (r: Result<(), String>)
        requires
            old(self).well_formed(),
        ensures
            final(self).well_formed(),
            store_unique(final(self).store()),
            r is Ok <==> words@.len() <= u32::MAX,
            r is Ok ==> final(self).store() == add_page(
                old(self).store(),
                PageView {
                    url: url@,
                    title: opt_view(*title),
                    description: opt_view(*description),
                    language: opt_view(*language),
                    words: views(words@),
                },
            ),
            r is Err ==> final(self).store() == old(self).store(),
    ;

    /// The entries that match every word of `term`.
    fn search(&self, term: &str) -> (r: Result<Vec<IndexedResource>, String>)
        requires
            self.well_formed(),
        ensures
            store_unique(self.store()),
            r matches Ok(v) && posting_view(v@) == search_keys(self.store(), query_keys(term@))
                && unique_urls(posting_view(v@)),
    ;

    /// The number of distinct stemmed words in the store.
    fn num_of_words(&self) -> (n: usize)
        requires
            self.well_formed(),
        ensures
            n == self.store().len(),
    ;
}

/// The in-memory index: each stemmed word names a slot of `postings`.
pub struct IndexerImplementation {
    slots: StringHashMap<usize>,
    postings: Vec<PostingSet>,
}

/// The number of times `w` occurs in `words`.
pub fn count_occurrences(words: &[String], w: &String) -> (r: u32)
    requires
        words@.len() <= u32::MAX,
    ensures
        r == occurrences(views(words@), w@),
{
    let mut n: u32 = 0;
    let mut i: usize = 0;
    while i < words.len()
        invariant
            i <= words@.len() <= u32::MAX,
            n == occurrences(views(words@.take(i as int)), w@),
            n <= i,
        decreases words.len() - i,
    {
        assert(views(words@.take(i as int + 1)).drop_last() =~= views(words@.take(i as int)));
        if words[i] == *w {
            n = n + 1;
        }
        i += 1;
    }
    assert(words@.take(words.len() as int) == words@);
    n
}

/// The number of occurrences of each word of `words`.
pub fn occurrence_counts(words: &[String]) -> (m: StringHashMap<u32>)
    requires
        words@.len() <= u32::MAX,
    ensures
        forall|w: Seq<char>| #[trigger]
            m@.contains_key(w) ==> m@[w] == occurrences(views(words@), w),
        forall|i: int| 0 <= i < words@.len() ==> m@.contains_key(#[trigger] words@[i]@),
{
    let mut m: StringHashMap<u32> = StringHashMap::new();
    let mut i: usize = 0;
    while i < words.len()
        invariant
            i <= words@.len() <= u32::MAX,
            forall|w: Seq<char>| #[trigger]
                m@.contains_key(w) ==> m@[w] == occurrences(views(words@.take(i as int)), w),
            forall|w: Seq<char>|
                !(#[trigger] m@.contains_key(w)) ==> occurrences(views(words@.take(i as int)), w)
                    == 0,
            forall|j: int| 0 <= j < i ==> m@.contains_key(#[trigger] words@[j]@),
        decreases words.len() - i,
    {
        let ghost prefix = views(words@.take(i as int));
        assert(views(words@.take(i as int + 1)).drop_last() =~= prefix);
        assert(views(words@.take(i as int + 1)).last() == words@[i as int]@);
        let w = &words[i];
        let n: u32 = match m.get(w.as_str()) {
            Some(c) => *c,
            None => 0,
        };
        proof {
            lemma_occurrences_bound(prefix, w@);
        }
        m.insert(w.clone(), n + 1);
        i += 1;
    }
    assert(words@.take(words.len() as int) == words@);
    m
}

proof fn lemma_occurrences_bound(words: Seq<Seq<char>>, w: Seq<char>)
    ensures
        occurrences(words, w) <= words.len(),
    decreases words.len(),
{
    if words.len() > 0 {
        lemma_occurrences_bound(words.drop_last(), w);
    }
}

/// The entry of a page for one of its words, with the given priority.
pub fn create_indexed_resource(
    url: &str,
    w: &String,
    title: &Option<String>,
    description: &Option<String>,
    language: &Option<String>,
    priority: u32,
) -> (r: IndexedResource)
    ensures
        r@ == (ResourceView {
            url: url@,
            title: opt_view(*title),
            description: opt_view(*description),
            priority,
            word: w@,
            language: opt_view(*language),
        }),
{
    IndexedResource {
        url: url.to_string(),
        title: copy_opt(title),
        description: copy_opt(description),
        priority,
        word: Arc::new(w.clone()),
        language: copy_opt(language),
    }
}

/// The Levenshtein distance between two texts, counted in characters: the
/// fewest insertions, deletions and substitutions that turn `a` into `b`.
pub open spec fn edit_distance(a: Seq<char>, b: Seq<char>) -> nat
    decreases a.len() + b.len(),
{
    if a.len() == 0 {
        b.len()
    } else if b.len() == 0 {
        a.len()
    } else {
        let delete = edit_distance(a.drop_last(), b) + 1;
        let insert = edit_distance(a, b.drop_last()) + 1;
        let replace = edit_distance(a.drop_last(), b.drop_last()) + if a.last() == b.last() {
            0nat
        } else {
            1nat
        };
        if delete <= insert && delete <= replace {
            delete
        } else if insert <= replace {
            insert
        } else {
            replace
        }
    }
}

/// Relies on `levenshtein::levenshtein`, the Levenshtein distance over the
/// characters of the two texts.
#[verifier::external_body]
fn levenshtein_distance(a: &str, b: &str) -> (r: usize)
    ensures
        r == edit_distance(a@, b@),
{
    levenshtein::levenshtein(a, b)
}

/// The sum of the edit distances between `w` and each of `words`.
pub open spec fn distance_sum(w: Seq<char>, words: Seq<Seq<char>>) -> nat
    decreases words.len(),
{
    if words.len() == 0 {
        0
    } else {
        distance_sum(w, words.drop_last()) + edit_distance(w, words.last())
    }
}

/// The alternative score of a word on a page: the sum of its edit distances to
/// every word of the page; `None` where that sum does not fit a priority.
pub fn distance_priority(w: &str, words: &[String]) -> (r: Option<u32>)
    ensures
        r == if distance_sum(w@, views(words@)) <= u32::MAX {
            Some(distance_sum(w@, views(words@)) as u32)
        } else {
            None::<u32>
        },
{
    let mut total: u32 = 0;
    let mut i: usize = 0;
    while i < words.len()
        invariant
            i <= words@.len(),
            total == distance_sum(w@, views(words@.take(i as int))),
        decreases words.len() - i,
    {
        assert(views(words@.take(i as int + 1)).drop_last() =~= views(words@.take(i as int)));
        let d = levenshtein_distance(w, words[i].as_str());
        if d > (u32::MAX - total) as usize {
            proof {
                lemma_distance_sum_grows(w@, views(words@), i as int + 1);
                assert(views(words@).take(i as int + 1) =~= views(words@.take(i as int + 1)));
            }
            return None;
        }
        total = total + d as u32;
        i += 1;
    }
    assert(words@.take(words.len() as int) =~= words@);
    Some(total)
}

proof fn lemma_distance_sum_grows(w: Seq<char>, words: Seq<Seq<char>>, n: int)
    requires
        0 <= n <= words.len(),
    ensures
        distance_sum(w, words.take(n)) <= distance_sum(w, words),
    decreases words.len() - n,
{
    if n < words.len() {
        lemma_distance_sum_grows(w, words, n + 1);
        assert(words.take(n + 1).drop_last() =~= words.take(n));
    } else {
        assert(words.take(n) =~= words);
    }
}

/// A copy of a posting set.
fn copy_posting(p: &Vec<IndexedResource>) -> (r: Vec<IndexedResource>)
    ensures
        posting_view(r@) == posting_view(p@),
{
    let mut out: Vec<IndexedResource> = Vec::new();
    let mut i: usize = 0;
    while i < p.len()
        invariant
            i <= p.len(),
            posting_view(out@) == posting_view(p@).take(i as int),
        decreases p.len() - i,
    {
        let ghost before = out@;
        out.push(p[i].duplicate());
        assert(posting_view(out@) =~= posting_view(before).push(p@[i as int]@));
        i += 1;
        assert(posting_view(out@) =~= posting_view(p@).take(i as int));
    }
    assert(posting_view(p@).take(p.len() as int) =~= posting_view(p@));
    out
}

/// The entries of `acc` whose url also has an entry in `other`.
fn shared_entries(acc: &Vec<IndexedResource>, other: &PostingSet) -> (r: Vec<IndexedResource>)
    requires
        other.well_formed(),
    ensures
        posting_view(r@) == keep_shared(posting_view(acc@), other@),
{
    let ghost av = posting_view(acc@);
    let mut out: Vec<IndexedResource> = Vec::new();
    let mut i: usize = 0;
    while i < acc.len()
        invariant
            i <= acc.len(),
            av == posting_view(acc@),
            posting_view(out@) == keep_shared(av.take(i as int), other@),
            other.well_formed(),
        decreases acc.len() - i,
    {
        assert(av.take(i as int + 1).drop_last() =~= av.take(i as int));
        assert(av[i as int] == acc@[i as int]@);
        if other.contains_url(acc[i].url.as_str()) {
            out.push(acc[i].duplicate());
            assert(posting_view(out@) =~= keep_shared(av.take(i as int), other@).push(
                av[i as int],
            ));
        }
        i += 1;
    }
    assert(av.take(acc.len() as int) =~= av);
    out
}

impl IndexerImplementation {
    /// An empty index.
    pub fn new() -> (r: IndexerImplementation)
        ensures
            r.well_formed(),
            r.store() == Map::<Seq<char>, Posting>::empty(),
            store_unique(r.store()),
    {
        let r = IndexerImplementation { slots: StringHashMap::new(), postings: Vec::new() };
        assert(r.store() =~= Map::<Seq<char>, Posting>::empty());
        r
    }

    proof fn lemma_store_unique(&self)
        requires
            self.well_formed(),
        ensures
            store_unique(self.store()),
    {
        assert forall|k: Seq<char>| self.store().contains_key(k) implies unique_urls(
            #[trigger] self.store()[k],
        ) by {
            let i = self.slots@[k] as int;
            self.postings@[i].lemma_one_per_url();
        }
    }

    /// Merges `r` into the posting set of `key`.
    fn add(&mut self, key: String, r: IndexedResource)
        requires
            old(self).well_formed(),
        ensures
            final(self).well_formed(),
            final(self).store() == add_entry(old(self).store(), key@, r@),
    {
        let ghost db = self.store();
        let found: Option<usize> = match self.slots.get(key.as_str()) {
            Some(i) => Some(*i),
            None => None,
        };
        match found {
            Some(i) => {
                assert(posting_of(db, key@) == self.postings@[i as int]@);
                self.postings[i].upsert(r);
                assert(self.store() =~= add_entry(db, key@, r@));
            },
            None => {
                let n = self.postings.len();
                let ghost rv = r@;
                self.postings.push(PostingSet::single(r));
                self.slots.insert(key, n);
                assert(!has_url(Seq::<ResourceView>::empty(), rv.url));
                assert(self.postings@[n as int]@ =~= upsert(Seq::empty(), rv));
                assert(self.store() =~= add_entry(db, key@, rv));
            },
        }
    }
}

impl Indexer for IndexerImplementation {
    closed spec fn well_formed(&self) -> bool {
        &&& forall|k: Seq<char>| #[trigger]
            self.slots@.contains_key(k) ==> self.slots@[k] < self.postings@.len()
        &&& forall|k1: Seq<char>, k2: Seq<char>|
            #![trigger self.slots@[k1], self.slots@[k2]]
            self.slots@.contains_key(k1) && self.slots@.contains_key(k2) && self.slots@[k1]
                == self.slots@[k2] ==> k1 == k2
        &&& forall|i: int|
            0 <= i < self.postings@.len() ==> (#[trigger] self.postings@[i]).well_formed()
    }

    closed spec fn store(&self) -> Store {
        self.slots@.map_values(|i: usize| self.postings@[i as int]@)
    }

    fn insert(
        &mut self,
        words: &[String],
        url: &str,
        title: &Option<String>,
        description: &Option<String>,
        language: &Option<String>,
        content: &str,
    ) -> (r: Result<(), String>) {
        if words.len() > u32::MAX as usize {
            proof {
                self.lemma_store_unique();
            }
            return Err("the page has more words than a priority can count".to_string());
        }
        let ghost page = PageView {
            url: url@,
            title: opt_view(*title),
            description: opt_view(*description),
            language: opt_view(*language),
            words: views(words@),
        };
        let ghost db = self.store();
        let counts = occurrence_counts(words);
        let mut i: usize = 0;
        while i < words.len()
            invariant
                i <= words@.len() <= u32::MAX,
                forall|w: Seq<char>| #[trigger]
                    counts@.contains_key(w) ==> counts@[w] == occurrences(views(words@), w),
                forall|j: int| 0 <= j < words@.len() ==> counts@.contains_key(#[trigger] words@[j]@),
                page.words.len() == words@.len(),
                page.words == views(words@),
                page.url == url@,
                page.title == opt_view(*title),
                page.description == opt_view(*description),
                page.language == opt_view(*language),
                self.well_formed(),
                self.store() == add_words(db, page, page.words.take(i as int)),
            decreases words.len() - i,
        {
            let w = &words[i];
            assert(counts@.contains_key(words@[i as int]@));
            let priority: u32 = match counts.get(w.as_str()) {
                Some(c) => *c,
                None => 0,
            };
            let res = create_indexed_resource(url, w, title, description, language, priority);
            let key = stem(w.as_str());
            assert(page.words[i as int] == w@);
            assert(res@ == entry(page, w@));
            self.add(key, res);
            assert(page.words.take(i as int + 1).drop_last() =~= page.words.take(i as int));
            i += 1;
        }
        assert(page.words.take(words.len() as int) =~= page.words);
        proof {
            self.lemma_store_unique();
        }
        Ok(())
    }

    fn search(&self, term: &str) -> (r: Result<Vec<IndexedResource>, String>) {
        let keys = query_terms(term);
        proof {
            self.lemma_store_unique();
        }
        let ghost db = self.store();
        let ghost ks = views(keys@);
        if keys.len() == 0 {
            return Ok(Vec::new());
        }
        let mut acc: Vec<IndexedResource> = Vec::new();
        let mut i: usize = 0;
        while i < keys.len()
            invariant
                i <= keys.len(),
                ks == views(keys@),
                ks == query_keys(term@),
                db == self.store(),
                self.well_formed(),
                all_present(db, ks.take(i as int)),
                posting_view(acc@) == intersect_all(db, ks.take(i as int)),
                store_unique(db),
                unique_urls(posting_view(acc@)),
            decreases keys.len() - i,
        {
            let slot: Option<usize> = match self.slots.get(keys[i].as_str()) {
                Some(s) => Some(*s),
                None => None,
            };
            match slot {
                None => {
                    assert(!db.contains_key(ks[i as int]));
                    assert(!all_present(db, ks));
                    return Ok(Vec::new());
                },
                Some(s) => {
                    assert(ks.take(i as int + 1).drop_last() =~= ks.take(i as int));
                    if i == 0 {
                        acc = copy_posting(self.postings[s].entries());
                        assert(db.contains_key(ks[0]));
                    } else {
                        proof {
                            lemma_keep_shared_unique(posting_view(acc@), self.postings@[s as int]@);
                        }
                        acc = shared_entries(&acc, &self.postings[s]);
                    }
                    assert(all_present(db, ks.take(i as int + 1)));
                },
            }
            i += 1;
        }
        assert(ks.take(keys.len() as int) =~= ks);
        Ok(acc)
    }

    fn num_of_words(&self) -> (n: usize) {
        assert(self.store().dom() =~= self.slots@.dom());
        self.slots.len()
    }
}

} // verus!
