use crate::index::{add_page, Indexer, PageView};
use crate::resource::{opt_view, CrawledResource};
use crate::text::{page_words, same_text, tokenize, views};
use kuchiki::traits::TendrilSink;
use vstd::string::StrSliceExecFns;
use vstd::prelude::*;

verus! {

/// The node names of a document in kuchiki's `inclusive_descendants` order:
/// the local name of each element, `None` for other nodes.
pub uninterp spec fn descendant_tags(html: Seq<char>) -> Seq<Option<Seq<char>>>;

/// The text kuchiki extracts from a document once the nodes at the given
/// positions of `inclusive_descendants` are detached with their subtrees.
pub uninterp spec fn text_without_nodes(html: Seq<char>, positions: Seq<usize>) -> Seq<char>;

/// The inner HTML of each element of a document with the given tag name, in
/// document order, as scraper serializes it.
pub uninterp spec fn inner_htmls(html: Seq<char>, tag: Seq<char>) -> Seq<Seq<char>>;

/// The value of an attribute on each element of a document with the given tag
/// name, in document order, as scraper parses it.
pub uninterp spec fn attribute_values(html: Seq<char>, tag: Seq<char>, attr: Seq<char>) -> Seq<
    Option<Seq<char>>,
>;

/// A text with its HTML character references decoded, as html_escape does it.
pub uninterp spec fn entities_decoded(s: Seq<char>) -> Seq<char>;

/// The most characters a page may have for the HTML parsers: they hold a
/// document in one buffer of at most `u32::MAX` bytes, and a character takes
/// at most four bytes.
pub const MAX_PAGE_CHARS: usize = 1073741823;

/// Whether the HTML parsers can take a document of this length.
pub open spec fn parsable(html: Seq<char>) -> bool {
    html.len() <= MAX_PAGE_CHARS
}

/// A tag name of lowercase ASCII letters.
pub open spec fn is_tag(t: Seq<char>) -> bool {
    t.len() > 0 && forall|i: int| 0 <= i < t.len() ==> 'a' <= #[trigger] t[i] <= 'z'
}

/// The texts of a sequence of optional strings.
pub open spec fn opt_views(v: Seq<Option<String>>) -> Seq<Option<Seq<char>>> {
    v.map_values(|o: Option<String>| opt_view(o))
}

/// The elements whose text is not prose: their subtrees are left out of the
/// indexed text.
pub open spec fn unindexed_tag(name: Seq<char>) -> bool {
    name == "script"@ || name == "style"@ || name == "noscript"@
}

/// Whether an element with this name holds no indexable prose.
pub fn is_unindexed_tag(name: &str) -> (r: bool)
    ensures
        r == unindexed_tag(name@),
{
    same_text(name, "script") || same_text(name, "style") || same_text(name, "noscript")
}

/// The positions of the unindexed elements among a document's nodes, in order.
pub open spec fn unindexed_in(tags: Seq<Option<Seq<char>>>) -> Seq<usize>
    decreases tags.len(),
{
    if tags.len() == 0 {
        Seq::empty()
    } else {
        let prev = unindexed_in(tags.drop_last());
        match tags.last() {
            Some(n) => if unindexed_tag(n) {
                prev.push((tags.len() - 1) as usize)
            } else {
                prev
            },
            None => prev,
        }
    }
}

/// The text of an HTML document without its script, style and noscript
/// subtrees.
pub open spec fn visible_text(html: Seq<char>) -> Seq<char> {
    text_without_nodes(html, unindexed_in(descendant_tags(html)))
}

/// Relies on kuchiki's `parse_html` and `inclusive_descendants`; the names
/// depend on the document alone. The parser panics on a document over
/// `u32::MAX` bytes, which `parsable` leaves out.
#[verifier::external_body]
fn descendant_names(html: &str) -> (r: Vec<Option<String>>)
    requires
        parsable(html@),
    ensures
        opt_views(r@) == descendant_tags(html@),
{
    let doc = kuchiki::parse_html().one(html);
    doc.inclusive_descendants().map(|n| n.as_element().map(|e| e.name.local.to_string())).collect()
}

/// Relies on kuchiki's `parse_html`, `inclusive_descendants`, `detach` and
/// `text_contents`. Each position is below the number of nodes, so indexing
/// does not panic; `parsable` keeps the document within the parser's buffer.
#[verifier::external_body]
fn text_without(html: &str, positions: &Vec<usize>) -> (r: String)
    requires
        parsable(html@),
        forall|i: int| 0 <= i < positions@.len() ==> positions@[i] < descendant_tags(html@).len(),
    ensures
        r@ == text_without_nodes(html@, positions@),
{
    let doc = kuchiki::parse_html().one(html);
    let nodes: Vec<kuchiki::NodeRef> = doc.inclusive_descendants().collect();
    for p in positions.iter() {
        nodes[*p].detach();
    }
    doc.text_contents()
}

/// The positions of the unindexed elements among a document's node names.
pub fn unindexed_positions(tags: &Vec<Option<String>>) -> (r: Vec<usize>)
    ensures
        r@ == unindexed_in(opt_views(tags@)),
        forall|i: int| 0 <= i < r@.len() ==> r@[i] < tags@.len(),
{
    let ghost ts = opt_views(tags@);
    let mut out: Vec<usize> = Vec::new();
    let mut i: usize = 0;
    while i < tags.len()
        invariant
            ts == opt_views(tags@),
            i <= tags.len(),
            out@ == unindexed_in(ts.take(i as int)),
            forall|k: int| 0 <= k < out@.len() ==> out@[k] < i,
        decreases tags.len() - i,
    {
        assert(ts.take(i as int + 1).drop_last() =~= ts.take(i as int));
        assert(ts[i as int] == opt_view(tags@[i as int]));
        if let Some(n) = &tags[i] {
            if is_unindexed_tag(n.as_str()) {
                out.push(i);
            }
        }
        i += 1;
    }
    assert(ts.take(tags.len() as int) =~= ts);
    out
}

/// The text of a page without its script, style and noscript subtrees.
pub fn page_text(html: &str) -> (r: String)
    requires
        parsable(html@),
    ensures
        r@ == visible_text(html@),
{
    let names = descendant_names(html);
    let hidden = unindexed_positions(&names);
    text_without(html, &hidden)
}

/// Relies on scraper's `Html::parse_document`, `Selector::parse`, `select` and
/// `ElementRef::inner_html`. A selector of lowercase letters is a type
/// selector, which parses. With scraper's `deterministic` feature attributes
/// keep their source order, so the serialization depends on the arguments
/// alone. `parsable` keeps the document within the parser's buffer.
#[verifier::external_body]
fn inner_html_of(html: &str, tag: &str) -> (r: Vec<String>)
    requires
        parsable(html@),
        is_tag(tag@),
    ensures
        views(r@) == inner_htmls(html@, tag@),
{
    let doc = scraper::Html::parse_document(html);
    let selector = scraper::Selector::parse(tag).unwrap();
    doc.select(&selector).map(|e| e.inner_html()).collect()
}

/// Relies on scraper's `Html::parse_document`, `Selector::parse`, `select` and
/// `Element::attr`. A selector of lowercase letters is a type selector, which
/// parses; `parsable` keeps the document within the parser's buffer.
#[verifier::external_body]
pub(crate) fn attribute_of(html: &str, tag: &str, attr: &str) -> (r: Vec<Option<String>>)
    requires
        parsable(html@),
        is_tag(tag@),
    ensures
        opt_views(r@) == attribute_values(html@, tag@, attr@),
{
    let doc = scraper::Html::parse_document(html);
    let selector = scraper::Selector::parse(tag).unwrap();
    doc.select(&selector).map(|e| e.value().attr(attr).map(String::from)).collect()
}

/// Relies on `html_escape::decode_html_entities`.
#[verifier::external_body]
fn decode(s: &str) -> (r: String)
    ensures
        r@ == entities_decoded(s@),
{
    html_escape::decode_html_entities(s).to_string()
}

/// The first title text, when there is one and it is not empty.
pub open spec fn first_title_spec(titles: Seq<Seq<char>>) -> Option<Seq<char>> {
    if titles.len() > 0 && titles[0].len() > 0 {
        Some(titles[0])
    } else {
        None
    }
}

/// The content of the first element, from `i` on, named "description" that has
/// a content.
pub open spec fn description_spec(
    names: Seq<Option<Seq<char>>>,
    contents: Seq<Option<Seq<char>>>,
    i: int,
) -> Option<Seq<char>>
    decreases names.len() - i,
{
    if i < 0 || i >= names.len() || i >= contents.len() {
        None
    } else if names[i] == Some("description"@) && contents[i] is Some {
        contents[i]
    } else {
        description_spec(names, contents, i + 1)
    }
}

/// The first value present, from `i` on.
pub open spec fn first_present(vals: Seq<Option<Seq<char>>>, i: int) -> Option<Seq<char>>
    decreases vals.len() - i,
{
    if i < 0 || i >= vals.len() {
        None
    } else if vals[i] is Some {
        vals[i]
    } else {
        first_present(vals, i + 1)
    }
}

/// An empty text counts as absent.
pub open spec fn non_empty(o: Option<Seq<char>>) -> Option<Seq<char>> {
    match o {
        Some(s) => if s.len() > 0 {
            Some(s)
        } else {
            None
        },
        None => None,
    }
}

/// An optional text with its character references decoded.
pub open spec fn decoded(o: Option<Seq<char>>) -> Option<Seq<char>> {
    match o {
        Some(s) => Some(entities_decoded(s)),
        None => None,
    }
}

/// The title of a page: the first `<title>`'s inner HTML, decoded.
pub open spec fn title_spec(html: Seq<char>) -> Option<Seq<char>> {
    decoded(first_title_spec(inner_htmls(html, "title"@)))
}

/// The description of a page: the content of its first
/// `<meta name="description">`, decoded.
pub open spec fn meta_description_spec(html: Seq<char>) -> Option<Seq<char>> {
    decoded(
        non_empty(
            description_spec(
                attribute_values(html, "meta"@, "name"@),
                attribute_values(html, "meta"@, "content"@),
                0,
            ),
        ),
    )
}

/// The language of a page: the first `lang` of an `<html>` element.
pub open spec fn language_spec(html: Seq<char>) -> Option<Seq<char>> {
    non_empty(first_present(attribute_values(html, "html"@, "lang"@), 0))
}

/// A crawled page as the index sees it.
pub open spec fn page_of(url: Seq<char>, html: Seq<char>) -> PageView {
    PageView {
        url,
        title: title_spec(html),
        description: meta_description_spec(html),
        language: language_spec(html),
        words: page_words(visible_text(html)),
    }
}

/// The first title text, when there is one and it is not empty.
pub fn first_title(titles: &Vec<String>) -> (r: Option<String>)
    ensures
        opt_view(r) == first_title_spec(views(titles@)),
{
    if titles.len() > 0 && !titles[0].as_str().is_empty() {
        assert(titles[0]@.len() > 0);
        Some(titles[0].clone())
    } else {
        proof {
            if titles.len() > 0 {
                assert(titles[0]@.len() == 0);
            }
        }
        None
    }
}

/// The content of the first `description` element that has one, given the
/// `name` and `content` attributes of a document's meta elements.
pub fn description_from(names: &Vec<Option<String>>, contents: &Vec<Option<String>>) -> (r: Option<
    String,
>)
    ensures
        opt_view(r) == non_empty(description_spec(opt_views(names@), opt_views(contents@), 0)),
{
    let ghost ns = opt_views(names@);
    let ghost cs = opt_views(contents@);
    let mut i: usize = 0;
    while i < names.len() && i < contents.len()
        invariant
            ns == opt_views(names@),
            cs == opt_views(contents@),
            i <= names.len(),
            description_spec(ns, cs, 0) == description_spec(ns, cs, i as int),
        decreases names.len() - i,
    {
        assert(ns.len() == names.len() && cs.len() == contents.len());
        assert(ns[i as int] == opt_view(names@[i as int]));
        assert(cs[i as int] == opt_view(contents@[i as int]));
        let named = match &names[i] {
            Some(n) => same_text(n.as_str(), "description"),
            None => false,
        };
        if named {
            if let Some(c) = &contents[i] {
                if !c.as_str().is_empty() {
                    return Some(c.clone());
                } else {
                    assert(c@.len() == 0);
                    return None;
                }
            }
        }
        i += 1;
    }
    None
}

/// The first value present, made absent where it is empty.
pub fn first_value(vals: &Vec<Option<String>>) -> (r: Option<String>)
    ensures
        opt_view(r) == non_empty(first_present(opt_views(vals@), 0)),
{
    let ghost vs = opt_views(vals@);
    let mut i: usize = 0;
    while i < vals.len()
        invariant
            vs == opt_views(vals@),
            i <= vals.len(),
            first_present(vs, 0) == first_present(vs, i as int),
        decreases vals.len() - i,
    {
        assert(vs[i as int] == opt_view(vals@[i as int]));
        if let Some(v) = &vals[i] {
            if !v.as_str().is_empty() {
                return Some(v.clone());
            } else {
                assert(v@.len() == 0);
                return None;
            }
        }
        i += 1;
    }
    None
}

fn decode_opt(o: Option<String>) -> (r: Option<String>)
    ensures
        opt_view(r) == decoded(opt_view(o)),
{
    match o {
        Some(s) => Some(decode(s.as_str())),
        None => None,
    }
}

/// The title of a page.
pub fn page_title(html: &str) -> (r: Option<String>)
    requires
        parsable(html@),
    ensures
        opt_view(r) == title_spec(html@),
{
    proof {
        reveal_strlit("title");
    }
    decode_opt(first_title(&inner_html_of(html, "title")))
}

/// The description of a page.
pub fn page_description(html: &str) -> (r: Option<String>)
    requires
        parsable(html@),
    ensures
        opt_view(r) == meta_description_spec(html@),
{
    proof {
        reveal_strlit("meta");
    }
    let names = attribute_of(html, "meta", "name");
    let contents = attribute_of(html, "meta", "content");
    decode_opt(description_from(&names, &contents))
}

/// The language of a page.
pub fn page_language(html: &str) -> (r: Option<String>)
    requires
        parsable(html@),
    ensures
        opt_view(r) == language_spec(html@),
{
    proof {
        reveal_strlit("html");
    }
    first_value(&attribute_of(html, "html", "lang"))
}

/// The word sequence of a page.
pub fn page_text_words(html: &str) -> (r: Vec<String>)
    requires
        parsable(html@),
    ensures
        views(r@) == page_words(visible_text(html@)),
{
    let text = page_text(html);
    tokenize(text.as_str())
}

/// Ingests a crawled page: extracts its words and metadata and merges an
/// entry for each word into the index. Fails, leaving the index as it was,
/// only when the page is too long for the HTML parsers or has more words than
/// a priority can count.
pub fn ingest<I: Indexer>(indexer: &mut I, resource: &CrawledResource) -> (r: Result<(), String>)
    requires
        old(indexer).well_formed(),
    ensures
        final(indexer).well_formed(),
        r is Ok <==> parsable(resource.content@) && page_words(
            visible_text(resource.content@),
        ).len() <= u32::MAX,
        r is Ok ==> final(indexer).store() == add_page(
            old(indexer).store(),
            page_of(resource.url@, resource.content@),
        ),
        r is Err ==> final(indexer).store() == old(indexer).store(),
{
    let html = resource.content.as_str();
    if html.unicode_len() > MAX_PAGE_CHARS {
        return Err("the page is too long to parse".to_string());
    }
    let words = page_text_words(html);
    let title = page_title(html);
    let description = page_description(html);
    let language = page_language(html);
    indexer.insert(words.as_slice(), resource.url.as_str(), &title, &description, &language, html)
}

} // verus!
