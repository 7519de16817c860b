use std::sync::Arc;
use vstd::prelude::*;

verus! {

/// A fetched page, as the crawler hands it to the indexer.
#[derive(Debug)]
pub struct CrawledResource {
    pub url: String,
    pub content: String,
}

/// The entry stored for one (stemmed word, url) pair of the index.
///
/// Two entries are equal exactly when their urls are equal: one page is one
/// identity however many words point at it.
#[derive(Debug, Clone)]
pub struct IndexedResource {
    pub url: String,
    pub title: Option<String>,
    pub description: Option<String>,
    pub priority: u32,
    pub word: Arc<String>,
    pub language: Option<String>,
}

/// The mathematical value of an [`IndexedResource`].
pub struct ResourceView {
    pub url: Seq<char>,
    pub title: Option<Seq<char>>,
    pub description: Option<Seq<char>>,
    pub priority: u32,
    pub word: Seq<char>,
    pub language: Option<Seq<char>>,
}

/// The text of an optional string.
pub open spec fn opt_view(o: Option<String>) -> Option<Seq<char>> {
    match o {
        Some(s) => Some(s@),
        None => None,
    }
}

impl View for IndexedResource {
    type V = ResourceView;

    open spec fn view(&self) -> ResourceView {
        ResourceView {
            url: self.url@,
            title: opt_view(self.title),
            description: opt_view(self.description),
            priority: self.priority,
            word: self.word@,
            language: opt_view(self.language),
        }
    }
}

/// Copies an optional string.
pub fn copy_opt(o: &Option<String>) -> (r: Option<String>)
    ensures
        opt_view(r) == opt_view(*o),
{
    match o {
        Some(s) => Some(s.clone()),
        None => None,
    }
}

impl IndexedResource {
    /// A copy of this entry with the same value.
    pub fn duplicate(&self) -> (r: IndexedResource)
        ensures
            r@ == self@,
    {
        IndexedResource {
            url: self.url.clone(),
            title: copy_opt(&self.title),
            description: copy_opt(&self.description),
            priority: self.priority,
            word: Arc::new(self.word.as_str().to_string()),
            language: copy_opt(&self.language),
        }
    }
}

impl PartialEq for IndexedResource {
    fn eq(&self, other: &IndexedResource) -> (r: bool) {
        self.url == other.url
    }
}

impl vstd::std_specs::cmp::PartialEqSpecImpl for IndexedResource {
    open spec fn obeys_eq_spec() -> bool {
        true
    }

    open spec fn eq_spec(&self, other: &IndexedResource) -> bool {
        self.url@ == other.url@
    }
}

impl Eq for IndexedResource {}

} // verus!
