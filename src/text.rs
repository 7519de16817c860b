use vstd::prelude::*;

verus! {

/// Unicode White_Space, the characters that `char::is_whitespace` accepts.
pub open spec fn whitespace(c: char) -> bool {
    ('\u{9}' <= c <= '\u{d}') || c == ' ' || c == '\u{85}' || c == '\u{a0}' || c == '\u{1680}'
        || ('\u{2000}' <= c <= '\u{200a}') || c == '\u{2028}' || c == '\u{2029}' || c
        == '\u{202f}' || c == '\u{205f}' || c == '\u{3000}'
}

/// What `char::is_alphabetic` answers for a character.
pub uninterp spec fn alphabetic(c: char) -> bool;

/// What the English Snowball stemmer of `rust_stemmers` makes of a word.
pub uninterp spec fn english_stem(w: Seq<char>) -> Seq<char>;

/// Whether a character is whitespace.
fn is_space(c: char) -> (r: bool)
    ensures
        r == whitespace(c),
{
    ('\u{9}' <= c && c <= '\u{d}') || c == ' ' || c == '\u{85}' || c == '\u{a0}' || c
        == '\u{1680}' || ('\u{2000}' <= c && c <= '\u{200a}') || c == '\u{2028}' || c
        == '\u{2029}' || c == '\u{202f}' || c == '\u{205f}' || c == '\u{3000}'
}

/// Relies on `char::is_alphabetic` (Unicode Alphabetic), which depends on the
/// character alone; among ASCII characters it holds of the letters only.
#[verifier::external_body]
fn is_letter(c: char) -> (r: bool)
    ensures
        r == alphabetic(c),
        ('a' <= c <= 'z' || 'A' <= c <= 'Z') ==> r,
        (c <= '\u{7f}' && !('a' <= c <= 'z' || 'A' <= c <= 'Z')) ==> !r,
{
    c.is_alphabetic()
}

/// An alphabetic character: among ASCII characters the letters, as
/// `char::is_alphabetic` has it; beyond ASCII whatever it answers.
pub open spec fn letter(c: char) -> bool {
    if c <= '\u{7f}' {
        'a' <= c <= 'z' || 'A' <= c <= 'Z'
    } else {
        alphabetic(c)
    }
}

/// Whether a character is alphabetic.
fn letter_char(c: char) -> (r: bool)
    ensures
        r == letter(c),
{
    if c <= '\u{7f}' {
        ('a' <= c && c <= 'z') || ('A' <= c && c <= 'Z')
    } else {
        is_letter(c)
    }
}

/// Relies on `String`'s `FromIterator<&char>`: the characters in order.
#[verifier::external_body]
pub(crate) fn string_from(cs: &Vec<char>) -> (r: String)
    ensures
        r@ == cs@,
{
    cs.iter().collect()
}

/// Relies on `rust_stemmers::Stemmer::stem` with the English algorithm; the
/// stem depends on the word alone.
#[verifier::external_body]
pub(crate) fn stem(w: &str) -> (r: String)
    ensures
        r@ == english_stem(w@),
{
    rust_stemmers::Stemmer::create(rust_stemmers::Algorithm::English).stem(w).to_string()
}

/// ASCII lowercase of one character; other characters are kept.
pub open spec fn lower_char(c: char) -> char {
    if 'A' <= c <= 'Z' {
        ((c as u8) + 32) as char
    } else {
        c
    }
}

/// A word with its ASCII letters lowercased.
pub open spec fn lower_word(w: Seq<char>) -> Seq<char> {
    w.map_values(|c: char| lower_char(c))
}

/// Splitting state after reading `s`: the finished runs of non-whitespace
/// characters, and the run still open.
pub open spec fn split_state(s: Seq<char>) -> (Seq<Seq<char>>, Seq<char>)
    decreases s.len(),
{
    if s.len() == 0 {
        (Seq::empty(), Seq::empty())
    } else {
        let (done, run) = split_state(s.drop_last());
        if whitespace(s.last()) {
            if run.len() > 0 {
                (done.push(run), Seq::empty())
            } else {
                (done, run)
            }
        } else {
            (done, run.push(s.last()))
        }
    }
}

/// The maximal runs of non-whitespace characters of `s`, in order.
pub open spec fn split_words(s: Seq<char>) -> Seq<Seq<char>> {
    let (done, run) = split_state(s);
    if run.len() > 0 {
        done.push(run)
    } else {
        done
    }
}

/// A token is kept as a word when every character is alphabetic.
pub open spec fn is_word(w: Seq<char>) -> bool {
    forall|i: int| 0 <= i < w.len() ==> letter(#[trigger] w[i])
}

/// The lowercased tokens of `runs` that are words, in order.
pub open spec fn keep_words(runs: Seq<Seq<char>>) -> Seq<Seq<char>>
    decreases runs.len(),
{
    if runs.len() == 0 {
        Seq::empty()
    } else {
        let kept = keep_words(runs.drop_last());
        let w = lower_word(runs.last());
        if is_word(w) {
            kept.push(w)
        } else {
            kept
        }
    }
}

/// The word sequence of a page's visible text.
pub open spec fn page_words(text: Seq<char>) -> Seq<Seq<char>> {
    keep_words(split_words(text))
}

/// Reading whitespace-free characters extends the open run.
pub proof fn lemma_split_extends(s: Seq<char>, t: Seq<char>)
    requires
        forall|i: int| 0 <= i < t.len() ==> !whitespace(#[trigger] t[i]),
    ensures
        split_state(s + t) == (split_state(s).0, split_state(s).1 + t),
    decreases t.len(),
{
    if t.len() == 0 {
        assert(s + t =~= s);
        assert(split_state(s).1 + t =~= split_state(s).1);
    } else {
        let init = t.drop_last();
        lemma_split_extends(s, init);
        assert((s + t).drop_last() =~= s + init);
        assert((s + t).last() == t.last());
        assert(split_state(s).1 + init.push(t.last()) =~= split_state(s).1 + t);
        assert(init.push(t.last()) =~= t);
    }
}

/// A nonempty whitespace-free word splits into itself, and two such words
/// joined by a space split into the two.
pub proof fn lemma_split_two_words(a: Seq<char>, b: Seq<char>)
    requires
        a.len() > 0,
        b.len() > 0,
        forall|i: int| 0 <= i < a.len() ==> !whitespace(#[trigger] a[i]),
        forall|i: int| 0 <= i < b.len() ==> !whitespace(#[trigger] b[i]),
    ensures
        split_words(a) == seq![a],
        split_words(a + seq![' '] + b) == seq![a, b],
{
    let e = Seq::<char>::empty();
    lemma_split_extends(e, a);
    assert(e + a =~= a);
    assert(split_state(e) == (Seq::<Seq<char>>::empty(), e));
    assert(Seq::<char>::empty() + a =~= a);
    let sp = a + seq![' '];
    assert(sp.drop_last() =~= a);
    assert(split_state(sp) == (seq![a], e));
    lemma_split_extends(sp, b);
    assert(e + b =~= b);
    assert(split_state(a) == (Seq::<Seq<char>>::empty(), a));
    assert(Seq::<Seq<char>>::empty().push(a) =~= seq![a]);
    assert(seq![a].push(b) =~= seq![a, b]);
}

/// The index keys that a query asks for: each whitespace-separated query word,
/// lowercased and stemmed.
pub open spec fn query_keys(term: Seq<char>) -> Seq<Seq<char>> {
    split_words(term).map_values(|w: Seq<char>| english_stem(lower_word(w)))
}

/// The texts of a sequence of strings.
pub open spec fn views(v: Seq<String>) -> Seq<Seq<char>> {
    v.map_values(|s: String| s@)
}

/// The characters of a text, in order.
pub fn chars_of(s: &str) -> (r: Vec<char>)
    ensures
        r@ == s@,
{
    let mut out: Vec<char> = Vec::new();
    for c in it: s.chars()
        invariant
            it.seq() == s@,
            out@ == it.seq().take(it.index() as int),
    {
        assert(it.seq().take(it.index() as int + 1) == it.seq().take(it.index() as int).push(c));
        out.push(c);
    }
    assert(out@ == s@.take(s@.len() as int));
    out
}

/// Whether two texts hold the same characters.
pub fn same_text(a: &str, b: &str) -> (r: bool)
    ensures
        r == (a@ == b@),
{
    let x = chars_of(a);
    let y = chars_of(b);
    if x.len() != y.len() {
        return false;
    }
    let mut i: usize = 0;
    while i < x.len()
        invariant
            x@ == a@,
            y@ == b@,
            x.len() == y.len(),
            i <= x.len(),
            forall|j: int| 0 <= j < i ==> x@[j] == y@[j],
        decreases x.len() - i,
    {
        if x[i] != y[i] {
            return false;
        }
        i += 1;
    }
    assert(x@ =~= y@);
    true
}

fn lower(c: char) -> (r: char)
    ensures
        r == lower_char(c),
{
    if 'A' <= c && c <= 'Z' {
        ((c as u8) + 32) as char
    } else {
        c
    }
}

/// The maximal runs of non-whitespace characters of `s`.
pub fn split_runs(s: &str) -> (r: Vec<Vec<char>>)
    ensures
        r@.map_values(|v: Vec<char>| v@) == split_words(s@),
{
    let mut done: Vec<Vec<char>> = Vec::new();
    let mut run: Vec<char> = Vec::new();
    for c in it: s.chars()
        invariant
            it.seq() == s@,
            (done@.map_values(|v: Vec<char>| v@), run@) == split_state(
                it.seq().take(it.index() as int),
            ),
    {
        let ghost pre = it.seq().take(it.index() as int);
        assert(it.seq().take(it.index() as int + 1).drop_last() == pre);
        if is_space(c) {
            if run.len() > 0 {
                let finished = run;
                run = Vec::new();
                done.push(finished);
                assert(done@.map_values(|v: Vec<char>| v@) == split_state(pre).0.push(finished@));
            }
        } else {
            run.push(c);
        }
    }
    assert(s@.take(s@.len() as int) == s@);
    if run.len() > 0 {
        let last = run;
        done.push(last);
        assert(done@.map_values(|v: Vec<char>| v@) == split_state(s@).0.push(last@));
    }
    done
}

fn lower_all(w: &Vec<char>) -> (r: Vec<char>)
    ensures
        r@ == lower_word(w@),
{
    let mut out: Vec<char> = Vec::new();
    let mut i: usize = 0;
    while i < w.len()
        invariant
            i <= w.len(),
            out@ == lower_word(w@.take(i as int)),
        decreases w.len() - i,
    {
        assert(lower_word(w@.take(i as int + 1)) == lower_word(w@.take(i as int)).push(
            lower_char(w@[i as int]),
        ));
        out.push(lower(w[i]));
        i += 1;
    }
    assert(w@.take(w.len() as int) == w@);
    out
}

fn all_letters(w: &Vec<char>) -> (r: bool)
    ensures
        r == is_word(w@),
{
    let mut i: usize = 0;
    while i < w.len()
        invariant
            i <= w.len(),
            forall|j: int| 0 <= j < i ==> letter(#[trigger] w@[j]),
        decreases w.len() - i,
    {
        if !letter_char(w[i]) {
            return false;
        }
        i += 1;
    }
    true
}

/// The word sequence of a text: split on whitespace, lowercase, and keep the
/// tokens made of alphabetic characters only.
pub fn tokenize(text: &str) -> (r: Vec<String>)
    ensures
        views(r@) == page_words(text@),
{
    let runs = split_runs(text);
    let ghost rs = runs@.map_values(|v: Vec<char>| v@);
    let mut out: Vec<String> = Vec::new();
    let mut i: usize = 0;
    while i < runs.len()
        invariant
            i <= runs.len(),
            rs == runs@.map_values(|v: Vec<char>| v@),
            views(out@) == keep_words(rs.take(i as int)),
        decreases runs.len() - i,
    {
        assert(rs.take(i as int + 1).drop_last() == rs.take(i as int));
        let w = lower_all(&runs[i]);
        if all_letters(&w) {
            let s = string_from(&w);
            out.push(s);
            assert(views(out@) == keep_words(rs.take(i as int)).push(s@));
        }
        i += 1;
    }
    assert(rs.take(runs.len() as int) == rs);
    out
}

/// The index keys of a query, in the order of its words.
pub fn query_terms(term: &str) -> (r: Vec<String>)
    ensures
        views(r@) == query_keys(term@),
{
    let runs = split_runs(term);
    let ghost rs = runs@.map_values(|v: Vec<char>| v@);
    let mut out: Vec<String> = Vec::new();
    let mut i: usize = 0;
    while i < runs.len()
        invariant
            i <= runs.len(),
            rs == runs@.map_values(|v: Vec<char>| v@),
            views(out@) == rs.take(i as int).map_values(
                |w: Seq<char>| english_stem(lower_word(w)),
            ),
        decreases runs.len() - i,
    {
        let w = lower_all(&runs[i]);
        let s = string_from(&w);
        let k = stem(s.as_str());
        let ghost before = out@;
        out.push(k);
        assert(rs[i as int] == runs@[i as int]@);
        assert(views(out@) =~= views(before).push(k@));
        assert(rs.take(i as int + 1).map_values(|w: Seq<char>| english_stem(lower_word(w)))
            =~= rs.take(i as int).map_values(|w: Seq<char>| english_stem(lower_word(w))).push(
            english_stem(lower_word(rs[i as int])),
        ));
        i += 1;
    }
    assert(rs.take(runs.len() as int) == rs);
    out
}

} // verus!
