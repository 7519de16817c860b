use crate::index::posting_view;
use crate::present::{presentation_order, sort_by_priority};
use crate::resource::IndexedResource;
use crate::text::{chars_of, string_from};
use vstd::prelude::*;
use vstd::string::StringExecFns;

verus! {

/// What `urlencoding::encode` makes of a text.
pub uninterp spec fn url_encoded(s: Seq<char>) -> Seq<char>;

/// What `urlencoding::decode` makes of a text; `None` where the decoded bytes
/// are not UTF-8.
pub uninterp spec fn url_decoded(s: Seq<char>) -> Option<Seq<char>>;

/// Relies on `urlencoding::encode`: every byte but alphanumerics and `-_.~`
/// percent-encoded.
#[verifier::external_body]
fn encode(s: &str) -> (r: String)
    ensures
        r@ == url_encoded(s@),
{
    urlencoding::encode(s).to_string()
}

/// Relies on `urlencoding::decode`; its UTF-8 error becomes `None`.
#[verifier::external_body]
fn decode(s: &str) -> (r: Option<String>)
    ensures
        match r {
            Some(d) => url_decoded(s@) == Some(d@),
            None => url_decoded(s@) is None,
        },
{
    urlencoding::decode(s).ok().map(|d| d.to_string())
}

/// A submitted query and, once the answer is in, its results or the error.
pub struct SearchResult {
    pub query: String,
    pub results: Option<Result<Vec<IndexedResource>, String>>,
}

/// The state of the search page.
pub struct OSSE {
    pub current_search_query: String,
    /// `None` until a first search is submitted.
    pub results: Option<SearchResult>,
}

/// What the search page reacts to.
pub enum OSSEMessage {
    SearchSubmitted,
    SearchChanged(String),
    SearchFinished(Result<Vec<IndexedResource>, String>),
}

/// The outside work a submitted search asks for: go to the search route and
/// fetch the results.
pub struct SearchRequest {
    /// The query, percent-encoded for the route.
    pub route_query: String,
    /// The query URL of the indexer.
    pub endpoint: String,
}

/// The query URL of the indexer for a query.
pub open spec fn endpoint_spec(api_endpoint: Seq<char>, query: Seq<char>) -> Seq<char> {
    api_endpoint + "/search/"@ + query
}

/// The text shown for a route query: decoded where it decodes.
pub open spec fn shown_query(q: Seq<char>) -> Seq<char> {
    match url_decoded(q) {
        Some(d) => d,
        None => q,
    }
}

impl OSSE {
    /// The page for a route; with a query in the route it submits a search at
    /// once, which the second part of the result says.
    pub fn create(initial_search_query: Option<String>) -> (r: (OSSE, bool))
        ensures
            r.0.results is None,
            r.1 == initial_search_query is Some,
            r.0.current_search_query@ == match initial_search_query {
                Some(q) => shown_query(q@),
                None => Seq::empty(),
            },
    {
        match initial_search_query {
            Some(q) => {
                let shown = match decode(q.as_str()) {
                    Some(d) => d,
                    None => q,
                };
                (OSSE { current_search_query: shown, results: None }, true)
            },
            None => (OSSE { current_search_query: String::new(), results: None }, false),
        }
    }

    /// Reacts to a message; a submitted search asks for a request.
    pub fn update(&mut self, api_endpoint: &str, msg: OSSEMessage) -> (r: Option<SearchRequest>)
        ensures
            match msg {
                OSSEMessage::SearchSubmitted => {
                    &&& final(self).current_search_query == old(self).current_search_query
                    &&& final(self).results matches Some(sr) && sr.query@
                        == old(self).current_search_query@ && sr.results is None
                    &&& r matches Some(req) && req.route_query@ == url_encoded(
                        old(self).current_search_query@,
                    ) && req.endpoint@ == endpoint_spec(
                        api_endpoint@,
                        old(self).current_search_query@,
                    )
                },
                OSSEMessage::SearchChanged(q) => {
                    &&& final(self).current_search_query == q
                    &&& final(self).results == old(self).results
                    &&& r is None
                },
                OSSEMessage::SearchFinished(res) => {
                    &&& final(self).current_search_query == old(self).current_search_query
                    &&& final(self).results matches Some(sr) && sr.query@
                        == old(self).current_search_query@ && sr.results == Some(res)
                    &&& r is None
                },
            },
    {
        match msg {
            OSSEMessage::SearchSubmitted => {
                let query = self.current_search_query.clone();
                let route_query = encode(query.as_str());
                let endpoint = String::from_str(api_endpoint).concat("/search/").concat(
                    query.as_str(),
                );
                self.results = Some(SearchResult { query, results: None });
                Some(SearchRequest { route_query, endpoint })
            },
            OSSEMessage::SearchChanged(q) => {
                self.current_search_query = q;
                None
            },
            OSSEMessage::SearchFinished(res) => {
                let query = self.current_search_query.clone();
                self.results = Some(SearchResult { query, results: Some(res) });
                None
            },
        }
    }
}

/// What the result area shows.
pub enum ResultsView {
    /// No search yet.
    Nothing,
    /// The answer is not in yet.
    Loading,
    Failed(String),
    NoResults,
    /// The results, higher priority first.
    Found(Vec<IndexedResource>),
}

/// What the result area shows for the page's search state.
pub fn results_view(results: &Option<SearchResult>) -> (r: ResultsView)
    ensures
        match results {
            None => r is Nothing,
            Some(sr) => match sr.results {
                None => r is Loading,
                Some(Err(e)) => r matches ResultsView::Failed(m) && m@ == e@,
                Some(Ok(v)) => if v@.len() == 0 {
                    r is NoResults
                } else {
                    r matches ResultsView::Found(s) && presentation_order(
                        posting_view(s@),
                        posting_view(v@),
                    )
                },
            },
        },
{
    match results {
        None => ResultsView::Nothing,
        Some(sr) => match &sr.results {
            None => ResultsView::Loading,
            Some(Err(e)) => ResultsView::Failed(e.clone()),
            Some(Ok(v)) => {
                if v.len() == 0 {
                    ResultsView::NoResults
                } else {
                    ResultsView::Found(sort_by_priority(v))
                }
            },
        },
    }
}

/// At most the first `max_chars` characters of `s`.
pub fn truncate(s: &str, max_chars: usize) -> (r: String)
    ensures
        r@ == if s@.len() <= max_chars {
            s@
        } else {
            s@.take(max_chars as int)
        },
{
    let cs = chars_of(s);
    let mut kept: Vec<char> = Vec::new();
    let mut i: usize = 0;
    while i < cs.len() && i < max_chars
        invariant
            cs@ == s@,
            i <= cs.len(),
            i <= max_chars,
            kept@ == s@.take(i as int),
        decreases cs.len() - i,
    {
        kept.push(cs[i]);
        i += 1;
        assert(kept@ =~= s@.take(i as int));
    }
    proof {
        if s@.len() <= max_chars {
            assert(s@.take(i as int) =~= s@);
        }
    }
    string_from(&kept)
}

} // verus!
