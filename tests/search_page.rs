use osse::resource::IndexedResource;
use osse::ui::{results_view, truncate, OSSEMessage, ResultsView, SearchResult, OSSE};
use std::sync::Arc;

fn entry(url: &str, priority: u32) -> IndexedResource {
    IndexedResource {
        url: url.to_string(),
        title: None,
        description: None,
        priority,
        word: Arc::new("w".to_string()),
        language: None,
    }
}

#[test]
fn route_query_is_decoded_and_submitted() {
    let (page, submit) = OSSE::create(Some("rust%20lang".to_string()));
    assert!(submit);
    assert_eq!(page.current_search_query, "rust lang");
    assert!(page.results.is_none());
    let (page, submit) = OSSE::create(None);
    assert!(!submit);
    assert_eq!(page.current_search_query, "");
}

#[test]
fn submit_asks_for_route_and_fetch() {
    let (mut page, _) = OSSE::create(None);
    assert!(page.update("http://h:4444/api", OSSEMessage::SearchChanged("rust lang".to_string())).is_none());
    let request = page.update("http://h:4444/api", OSSEMessage::SearchSubmitted).unwrap();
    assert_eq!(request.route_query, "rust%20lang");
    assert_eq!(request.endpoint, "http://h:4444/api/search/rust lang");
    assert!(matches!(results_view(&page.results), ResultsView::Loading));
    let done = page.update("http://h:4444/api", OSSEMessage::SearchFinished(Ok(vec![entry("https://a.com/", 1)])));
    assert!(done.is_none());
    match &page.results {
        Some(SearchResult { query, results: Some(Ok(found)) }) => {
            assert_eq!(query, "rust lang");
            assert_eq!(found.len(), 1);
        }
        _ => panic!("expected results"),
    }
}

#[test]
fn result_area_states() {
    assert!(matches!(results_view(&None), ResultsView::Nothing));
    let failed = Some(SearchResult { query: "q".to_string(), results: Some(Err("down".to_string())) });
    assert!(matches!(results_view(&failed), ResultsView::Failed(ref m) if m == "down"));
    let empty = Some(SearchResult { query: "q".to_string(), results: Some(Ok(vec![])) });
    assert!(matches!(results_view(&empty), ResultsView::NoResults));
    let found = Some(SearchResult {
        query: "q".to_string(),
        results: Some(Ok(vec![entry("https://five.com/", 5), entry("https://one.com/", 1), entry("https://nine.com/", 9)])),
    });
    match results_view(&found) {
        ResultsView::Found(list) => {
            let priorities: Vec<u32> = list.iter().map(|r| r.priority).collect();
            assert_eq!(priorities, vec![9, 5, 1]);
        }
        _ => panic!("expected a list"),
    }
}

#[test]
fn truncate_counts_characters() {
    assert_eq!(truncate("héllo world", 5), "héllo");
    assert_eq!(truncate("short", 70), "short");
    assert_eq!(truncate("", 3), "");
}
