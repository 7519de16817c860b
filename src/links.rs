use crate::html::{attribute_values, is_tag, opt_views};
use crate::text::{same_text, views};
use itertools::Itertools;
use rand::seq::IteratorRandom;
use vstd::prelude::*;

verus! {

/// The most links a crawled page hands on to the frontier.
pub const MAX_NEXT_LINKS: usize = 2;

/// The most path segments a link may have.
pub const MAX_PATH_SEGMENTS: usize = 4;

/// The parts of a parsed absolute URL that the crawler looks at.
pub struct UrlParts {
    /// The serialization of the whole URL.
    pub href: String,
    pub scheme: String,
    pub fragment: Option<String>,
    pub query: Option<String>,
    /// The segments of the path, where the URL has a hierarchical path.
    pub path_segments: Option<Vec<String>>,
}

/// The value of a [`UrlParts`].
pub struct UrlView {
    pub href: Seq<char>,
    pub scheme: Seq<char>,
    pub fragment: Option<Seq<char>>,
    pub query: Option<Seq<char>>,
    pub path_segments: Option<Seq<Seq<char>>>,
}

impl View for UrlParts {
    type V = UrlView;

    open spec fn view(&self) -> UrlView {
        UrlView {
            href: self.href@,
            scheme: self.scheme@,
            fragment: match self.fragment {
                Some(f) => Some(f@),
                None => None,
            },
            query: match self.query {
                Some(q) => Some(q@),
                None => None,
            },
            path_segments: match self.path_segments {
                Some(p) => Some(views(p@)),
                None => None,
            },
        }
    }
}

/// The value of an optional parsed URL.
pub open spec fn url_view(o: Option<UrlParts>) -> Option<UrlView> {
    match o {
        Some(u) => Some(u@),
        None => None,
    }
}

/// What `url::Url::parse` makes of a text.
pub uninterp spec fn parsed_url(s: Seq<char>) -> Option<UrlView>;

/// What `url::Url::join` makes of a reference against a base URL.
pub uninterp spec fn joined_url(base: Seq<char>, reference: Seq<char>) -> Option<UrlView>;

/// Relies on `url::Url::parse`; the result depends on the text alone.
#[verifier::external_body]
fn parse_url(s: &str) -> (r: Option<UrlParts>)
    ensures
        url_view(r) == parsed_url(s@),
{
    let u = url::Url::parse(s).ok()?;
    Some(UrlParts {
        href: u.as_str().to_string(),
        scheme: u.scheme().to_string(),
        fragment: u.fragment().map(String::from),
        query: u.query().map(String::from),
        path_segments: u.path_segments().map(|p| p.map(String::from).collect()),
    })
}

/// Relies on `url::Url::join` (after `url::Url::parse` of the base); the
/// result depends on the two texts alone.
#[verifier::external_body]
fn join_url(base: &str, reference: &str) -> (r: Option<UrlParts>)
    ensures
        url_view(r) == joined_url(base@, reference@),
{
    let u = url::Url::parse(base).and_then(|b| b.join(reference)).ok()?;
    Some(UrlParts {
        href: u.as_str().to_string(),
        scheme: u.scheme().to_string(),
        fragment: u.fragment().map(String::from),
        query: u.query().map(String::from),
        path_segments: u.path_segments().map(|p| p.map(String::from).collect()),
    })
}

/// Each text at its first occurrence, in order.
pub open spec fn distinct(s: Seq<Seq<char>>) -> Seq<Seq<char>>
    decreases s.len(),
{
    if s.len() == 0 {
        s
    } else {
        let prev = distinct(s.drop_last());
        if prev.contains(s.last()) {
            prev
        } else {
            prev.push(s.last())
        }
    }
}

/// Relies on itertools' `Itertools::unique`, which yields each item at its
/// first occurrence, in order.
#[verifier::external_body]
fn unique_texts(v: Vec<String>) -> (r: Vec<String>)
    ensures
        views(r@) == distinct(views(v@)),
{
    v.into_iter().unique().collect()
}

/// Relies on rand's `IteratorRandom::choose_multiple` over `0..n` with the
/// thread-local generator: `min(amount, n)` distinct positions below `n`.
#[verifier::external_body]
fn sample_positions(n: usize, amount: usize) -> (r: Vec<usize>)
    ensures
        r@.len() == if amount <= n {
            amount
        } else {
            n
        },
        forall|i: int| 0 <= i < r@.len() ==> r@[i] < n,
        forall|i: int, j: int| 0 <= i < r@.len() && 0 <= j < r@.len() && i != j ==> r@[i] != r@[j],
{
    (0..n).choose_multiple(&mut rand::thread_rng(), amount)
}

/// Whether a resolved link is worth crawling from the page `page`: http or
/// https, no fragment, no query, at most four path segments, and not the page
/// itself.
pub open spec fn valid_link(u: UrlView, page: UrlView) -> bool {
    &&& (u.scheme == "http"@ || u.scheme == "https"@)
    &&& u.fragment is None
    &&& u.query is None
    &&& (u.path_segments matches Some(p) ==> p.len() <= MAX_PATH_SEGMENTS)
    &&& u.href != page.href
}

/// The values present, in order.
pub open spec fn present(vals: Seq<Option<Seq<char>>>) -> Seq<Seq<char>>
    decreases vals.len(),
{
    if vals.len() == 0 {
        Seq::empty()
    } else {
        let prev = present(vals.drop_last());
        match vals.last() {
            Some(v) => prev.push(v),
            None => prev,
        }
    }
}

/// The references of `refs` that resolve against `base` to a valid link from
/// `page`, resolved, in order.
pub open spec fn resolve_links(base: Seq<char>, page: UrlView, refs: Seq<Seq<char>>) -> Seq<
    Seq<char>,
>
    decreases refs.len(),
{
    if refs.len() == 0 {
        Seq::empty()
    } else {
        let prev = resolve_links(base, page, refs.drop_last());
        match joined_url(base, refs.last()) {
            Some(u) => if valid_link(u, page) {
                prev.push(u.href)
            } else {
                prev
            },
            None => prev,
        }
    }
}

/// The outbound links of a page before sampling: the distinct `href`s of its
/// anchors, resolved against the page's URL, that are valid links.
pub open spec fn candidate_links_spec(page_url: Seq<char>, page: UrlView, html: Seq<char>) -> Seq<
    Seq<char>,
> {
    resolve_links(page_url, page, distinct(present(attribute_values(html, "a"@, "href"@))))
}

/// Whether `r` is drawn from `from` without replacement, as many as `k` allow.
pub open spec fn is_sample(r: Seq<Seq<char>>, from: Seq<Seq<char>>, k: nat) -> bool {
    &&& r.len() == if k <= from.len() {
        k
    } else {
        from.len()
    }
    &&& exists|pos: Seq<int>|
        {
            &&& pos.len() == r.len()
            &&& forall|i: int| 0 <= i < pos.len() ==> 0 <= #[trigger] pos[i] < from.len()
            &&& forall|i: int| 0 <= i < pos.len() ==> r[i] == from[#[trigger] pos[i]]
            &&& forall|i: int, j: int|
                0 <= i < pos.len() && 0 <= j < pos.len() && i != j ==> pos[i] != pos[j]
        }
}

/// Whether an optional part is missing.
fn is_absent(o: &Option<String>) -> (b: bool)
    ensures
        b == (o is None),
{
    match o {
        Some(_) => false,
        None => true,
    }
}

/// Whether `u` is a link worth crawling from `page`.
pub fn is_valid_link(u: &UrlParts, page: &UrlParts) -> (r: bool)
    ensures
        r == valid_link(u@, page@),
{
    proof {
        reveal_strlit("http");
        reveal_strlit("https");
    }
    let scheme_ok = same_text(u.scheme.as_str(), "http") || same_text(u.scheme.as_str(), "https");
    let depth_ok = match &u.path_segments {
        Some(p) => p.len() <= MAX_PATH_SEGMENTS,
        None => true,
    };
    scheme_ok && is_absent(&u.fragment) && is_absent(&u.query) && depth_ok
        && !same_text(u.href.as_str(), page.href.as_str())
}

/// The values present, in order.
pub fn present_values(vals: Vec<Option<String>>) -> (r: Vec<String>)
    ensures
        views(r@) == present(opt_views(vals@)),
{
    let ghost vs = opt_views(vals@);
    let mut out: Vec<String> = Vec::new();
    let mut i: usize = 0;
    while i < vals.len()
        invariant
            vs == opt_views(vals@),
            i <= vals.len(),
            views(out@) == present(vs.take(i as int)),
        decreases vals.len() - i,
    {
        assert(vs.take(i as int + 1).drop_last() =~= vs.take(i as int));
        assert(vs[i as int] == crate::resource::opt_view(vals@[i as int]));
        if let Some(v) = &vals[i] {
            let ghost before = out@;
            out.push(v.clone());
            assert(views(out@) =~= views(before).push(v@));
        }
        i += 1;
    }
    assert(vs.take(vals.len() as int) =~= vs);
    out
}

/// The references of `refs` that resolve against `page_url` to a valid link
/// from `page`, resolved, in order.
pub fn resolve_valid(page_url: &str, page: &UrlParts, refs: &Vec<String>) -> (r: Vec<String>)
    ensures
        views(r@) == resolve_links(page_url@, page@, views(refs@)),
{
    let ghost rs = views(refs@);
    let mut out: Vec<String> = Vec::new();
    let mut i: usize = 0;
    while i < refs.len()
        invariant
            rs == views(refs@),
            i <= refs.len(),
            views(out@) == resolve_links(page_url@, page@, rs.take(i as int)),
        decreases refs.len() - i,
    {
        assert(rs.take(i as int + 1).drop_last() =~= rs.take(i as int));
        assert(rs[i as int] == refs@[i as int]@);
        if let Some(u) = join_url(page_url, refs[i].as_str()) {
            if is_valid_link(&u, page) {
                let ghost before = out@;
                out.push(u.href);
                assert(views(out@) =~= views(before).push(u@.href));
            }
        }
        i += 1;
    }
    assert(rs.take(refs.len() as int) =~= rs);
    out
}

/// The outbound links of a page before sampling, or `None` when its own URL
/// does not parse.
pub fn candidate_links(page_url: &str, html: &str) -> (r: Option<Vec<String>>)
    requires
        crate::html::parsable(html@),
    ensures
        parsed_url(page_url@) is None ==> r is None,
        parsed_url(page_url@) matches Some(page) ==> (r matches Some(v) && views(v@)
            == candidate_links_spec(page_url@, page, html@)),
{
    proof {
        reveal_strlit("a");
    }
    let page = parse_url(page_url)?;
    let hrefs = present_values(crate::html::attribute_of(html, "a", "href"));
    let refs = unique_texts(hrefs);
    Some(resolve_valid(page_url, &page, &refs))
}

/// A uniform sample without replacement of at most two links.
pub fn sample_links(links: &Vec<String>) -> (r: Vec<String>)
    ensures
        is_sample(views(r@), views(links@), MAX_NEXT_LINKS as nat),
{
    let pos = sample_positions(links.len(), MAX_NEXT_LINKS);
    let ghost ls = views(links@);
    let mut out: Vec<String> = Vec::new();
    let mut i: usize = 0;
    while i < pos.len()
        invariant
            ls == views(links@),
            i <= pos.len(),
            forall|k: int| 0 <= k < pos@.len() ==> pos@[k] < links@.len(),
            views(out@).len() == i,
            forall|k: int| 0 <= k < i ==> views(out@)[k] == ls[pos@[k] as int],
        decreases pos.len() - i,
    {
        let ghost before = out@;
        out.push(links[pos[i]].clone());
        assert(views(out@) =~= views(before).push(ls[pos@[i as int] as int]));
        i += 1;
    }
    let ghost ps = pos@.map_values(|p: usize| p as int);
    assert(ps.len() == views(out@).len());
    assert(forall|k: int| 0 <= k < ps.len() ==> views(out@)[k] == ls[#[trigger] ps[k]]);
    out
}

} // verus!
