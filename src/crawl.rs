use crate::links::{candidate_links, candidate_links_spec, is_sample, parsed_url, sample_links, MAX_NEXT_LINKS};
use crate::resource::CrawledResource;
use crate::text::{split_runs, split_words, views};
use vstd::prelude::*;
use crate::html::{parsable, MAX_PAGE_CHARS};
use vstd::string::{StrSliceExecFns, StringExecFns};

verus! {

/// Why a crawl task ended without ingesting its page.
#[derive(Debug, Clone, Copy, PartialEq, Eq, Structural)]
pub enum CrawlError {
    /// The page could not be fetched, or the answer was not 200 OK.
    FetchError,
    /// The page's own URL does not parse.
    ParseError,
    /// The page is too long for the HTML parser.
    PageTooLarge,
    /// The indexer could not be reached or refused the page.
    IngestPushError,
}

/// The HTTP status of a successful fetch.
pub const STATUS_OK: u16 = 200;

/// The page body when the fetch answered 200 OK with a body; a fetch error
/// otherwise.
pub fn fetch_outcome(status: u16, body: Option<String>) -> (r: Result<String, CrawlError>)
    ensures
        r == if status == STATUS_OK && body is Some {
            Ok::<String, CrawlError>(body->0)
        } else {
            Err(CrawlError::FetchError)
        },
{
    if status == STATUS_OK {
        match body {
            Some(b) => Ok(b),
            None => Err(CrawlError::FetchError),
        }
    } else {
        Err(CrawlError::FetchError)
    }
}

/// The work on one fetched page: the page body, when the fetch answered 200
/// OK with a body, and a sample of at most two of its outbound links.
pub fn crawl_page(url: &str, status: u16, body: Option<String>) -> (r: Result<
    (String, Vec<String>),
    CrawlError,
>)
    ensures
        !(status == STATUS_OK && body is Some) ==> r == Err::<(String, Vec<String>), CrawlError>(
            CrawlError::FetchError,
        ),
        status == STATUS_OK && body is Some && !parsable(body->0@) ==> r == Err::<
            (String, Vec<String>),
            CrawlError,
        >(CrawlError::PageTooLarge),
        status == STATUS_OK && body is Some && parsable(body->0@) && parsed_url(url@) is None
            ==> r == Err::<(String, Vec<String>), CrawlError>(CrawlError::ParseError),
        status == STATUS_OK && body is Some && parsable(body->0@) && parsed_url(url@) is Some ==> (r matches Ok(
            (content, next_urls),
        ) && content == body->0 && is_sample(
            views(next_urls@),
            candidate_links_spec(url@, parsed_url(url@)->0, content@),
            MAX_NEXT_LINKS as nat,
        )),
{
    let content = fetch_outcome(status, body)?;
    if content.as_str().unicode_len() > MAX_PAGE_CHARS {
        return Err(CrawlError::PageTooLarge);
    }
    match candidate_links(url, content.as_str()) {
        None => Err(CrawlError::ParseError),
        Some(links) => {
            let next_urls = sample_links(&links);
            Ok((content, next_urls))
        },
    }
}

/// The state of the crawl of one URL.
pub enum CrawlTask {
    /// The page is being fetched.
    Fetching { url: String },
    /// The page is being handed to the indexer; its sampled links wait.
    Pushing { url: String, next_urls: Vec<String> },
    /// The page went to the indexer and its links to the frontier.
    Ingested,
    /// The crawl of the URL ended early; it is not retried.
    Failed { url: String, error: CrawlError },
}

/// What happened to the outside work a task asked for.
pub enum CrawlEvent {
    /// The fetch answered with a status and, where it could be read, a body.
    Fetched { status: u16, body: Option<String> },
    /// The transport failed before any answer.
    FetchFailed,
    /// The indexer took the page, or did not.
    Pushed { accepted: bool },
}

/// The outside work a task asks for next.
pub enum CrawlAction {
    Fetch(String),
    Push(CrawledResource),
    Enqueue(Vec<String>),
    Stop,
}

impl CrawlTask {
    /// A new task for `url`: it starts by fetching it.
    pub fn start(url: String) -> (r: (CrawlTask, CrawlAction))
        ensures
            r.0 matches CrawlTask::Fetching { url: u } && u@ == url@,
            r.1 matches CrawlAction::Fetch(u) && u@ == url@,
    {
        let fetch = url.clone();
        (CrawlTask::Fetching { url }, CrawlAction::Fetch(fetch))
    }

    /// The next state and action after `event`. An event that does not answer
    /// the state's pending work changes nothing.
    pub fn step(self, event: CrawlEvent) -> (r: (CrawlTask, CrawlAction))
        ensures
            match (self, event) {
                (CrawlTask::Fetching { url }, CrawlEvent::FetchFailed) => r == (
                    CrawlTask::Failed { url, error: CrawlError::FetchError },
                    CrawlAction::Stop,
                ),
                (CrawlTask::Fetching { url }, CrawlEvent::Fetched { status, body }) => {
                    if !(status == STATUS_OK && body is Some) {
                        r == (
                            CrawlTask::Failed { url, error: CrawlError::FetchError },
                            CrawlAction::Stop,
                        )
                    } else if !parsable(body->0@) {
                        r == (
                            CrawlTask::Failed { url, error: CrawlError::PageTooLarge },
                            CrawlAction::Stop,
                        )
                    } else if parsed_url(url@) is None {
                        r == (
                            CrawlTask::Failed { url, error: CrawlError::ParseError },
                            CrawlAction::Stop,
                        )
                    } else {
                        &&& r.0 matches CrawlTask::Pushing { url: u, next_urls }
                        &&& u == url
                        &&& is_sample(
                            views(next_urls@),
                            candidate_links_spec(url@, parsed_url(url@)->0, body->0@),
                            MAX_NEXT_LINKS as nat,
                        )
                        &&& r.1 matches CrawlAction::Push(res)
                        &&& res.url@ == url@
                        &&& res.content == body->0
                    }
                },
                (CrawlTask::Pushing { url, next_urls }, CrawlEvent::Pushed { accepted }) => {
                    if accepted {
                        r == (CrawlTask::Ingested, CrawlAction::Enqueue(next_urls))
                    } else {
                        r == (
                            CrawlTask::Failed { url, error: CrawlError::IngestPushError },
                            CrawlAction::Stop,
                        )
                    }
                },
                (state, _) => r == (state, CrawlAction::Stop),
            },
    {
        match self {
            CrawlTask::Fetching { url } => match event {
                CrawlEvent::FetchFailed => (
                    CrawlTask::Failed { url, error: CrawlError::FetchError },
                    CrawlAction::Stop,
                ),
                CrawlEvent::Fetched { status, body } => match crawl_page(url.as_str(), status, body) {
                    Err(error) => (CrawlTask::Failed { url, error }, CrawlAction::Stop),
                    Ok((content, next_urls)) => {
                        let page = CrawledResource { url: url.clone(), content };
                        (CrawlTask::Pushing { url, next_urls }, CrawlAction::Push(page))
                    },
                },
                other => (CrawlTask::Fetching { url }, CrawlAction::Stop),
            },
            CrawlTask::Pushing { url, next_urls } => match event {
                CrawlEvent::Pushed { accepted } => {
                    if accepted {
                        (CrawlTask::Ingested, CrawlAction::Enqueue(next_urls))
                    } else {
                        (
                            CrawlTask::Failed { url, error: CrawlError::IngestPushError },
                            CrawlAction::Stop,
                        )
                    }
                },
                other => (CrawlTask::Pushing { url, next_urls }, CrawlAction::Stop),
            },
            state => (state, CrawlAction::Stop),
        }
    }
}

/// Whether the text holds "://", the end of a scheme.
pub open spec fn has_scheme(w: Seq<char>) -> bool {
    exists|i: int| 0 <= i && i + 3 <= w.len() && #[trigger] w[i] == ':' && w[i + 1] == '/' && w[i + 2] == '/'
}

/// A seed as the crawler fetches it: with "https://" in front where it names
/// no scheme.
pub open spec fn seed_spec(w: Seq<char>) -> Seq<char> {
    if has_scheme(w) {
        w
    } else {
        "https://"@ + w
    }
}

/// Whether `w` holds "://".
pub fn names_scheme(w: &Vec<char>) -> (r: bool)
    ensures
        r == has_scheme(w@),
{
    let mut i: usize = 0;
    if w.len() < 3 {
        return false;
    }
    while i <= w.len() - 3
        invariant
            3 <= w.len(),
            forall|j: int| 0 <= j < i && j + 3 <= w@.len() ==> !(#[trigger] w@[j] == ':' && w@[j + 1] == '/' && w@[j + 2] == '/'),
        decreases w.len() - i,
    {
        if w[i] == ':' && w[i + 1] == '/' && w[i + 2] == '/' {
            return true;
        }
        i += 1;
    }
    false
}

/// The seed URLs of a whitespace-separated list, each with a scheme.
pub fn seed_urls(list: &str) -> (r: Vec<String>)
    ensures
        views(r@) == split_words(list@).map_values(|w: Seq<char>| seed_spec(w)),
{
    let runs = split_runs(list);
    let ghost rs = runs@.map_values(|v: Vec<char>| v@);
    let mut out: Vec<String> = Vec::new();
    let mut i: usize = 0;
    while i < runs.len()
        invariant
            i <= runs.len(),
            rs == runs@.map_values(|v: Vec<char>| v@),
            views(out@) == rs.take(i as int).map_values(|w: Seq<char>| seed_spec(w)),
        decreases runs.len() - i,
    {
        let word = crate::text::string_from(&runs[i]);
        let url = if names_scheme(&runs[i]) {
            word
        } else {
            String::from_str("https://").concat(word.as_str())
        };
        let ghost before = out@;
        out.push(url);
        assert(rs[i as int] == runs@[i as int]@);
        assert(views(out@) =~= views(before).push(seed_spec(rs[i as int])));
        assert(rs.take(i as int + 1).map_values(|w: Seq<char>| seed_spec(w)) =~= rs.take(
            i as int,
        ).map_values(|w: Seq<char>| seed_spec(w)).push(seed_spec(rs[i as int])));
        i += 1;
    }
    assert(rs.take(runs.len() as int) =~= rs);
    out
}

} // verus!
