use osse::crawl::{crawl_page, fetch_outcome, seed_urls, CrawlAction, CrawlError, CrawlEvent, CrawlTask};
use osse::frontier::Frontier;
use osse::links::{candidate_links, is_valid_link, present_values, sample_links, UrlParts};

fn sorted(mut v: Vec<String>) -> Vec<String> {
    v.sort();
    v
}

fn texts(ws: &[&str]) -> Vec<String> {
    ws.iter().map(|w| w.to_string()).collect()
}

const PAGE: &str = "<html><body>\
    <a href=\"https://a.com/x\">self</a>\
    <a href=\"https://a.com/x?q=1\">query</a>\
    <a href=\"https://a.com/x#f\">fragment</a>\
    <a href=\"/y\">root relative</a>\
    <a href=\"/y\">again</a>\
    <a href=\"//b.com/z\">protocol relative</a>\
    <a href=\"ftp://c.com\">ftp</a>\
    <a>no href</a>\
    </body></html>";

#[test]
fn links_are_filtered() {
    let links = candidate_links("https://a.com/x", PAGE).unwrap();
    assert_eq!(links.len(), 2);
    assert_eq!(sorted(links), texts(&["https://a.com/y", "https://b.com/z"]));
}

#[test]
fn deep_paths_are_dropped() {
    let html = "<a href=\"/1/2/3/4\">ok</a><a href=\"/1/2/3/4/5\">deep</a>";
    let links = candidate_links("http://d.org/", html).unwrap();
    assert_eq!(links, texts(&["http://d.org/1/2/3/4"]));
}

#[test]
fn unparsable_page_url_gives_none() {
    assert!(candidate_links("not a url", PAGE).is_none());
}

#[test]
fn link_rule_on_given_parts() {
    let page = UrlParts {
        href: "https://a.com/x".to_string(),
        scheme: "https".to_string(),
        fragment: None,
        query: None,
        path_segments: Some(texts(&["x"])),
    };
    let good = UrlParts {
        href: "http://a.com/y".to_string(),
        scheme: "http".to_string(),
        fragment: None,
        query: None,
        path_segments: Some(texts(&["y"])),
    };
    assert!(is_valid_link(&good, &page));
    let mailto = UrlParts { scheme: "mailto".to_string(), path_segments: None, ..clone_parts(&good) };
    assert!(!is_valid_link(&mailto, &page));
    let with_query = UrlParts { query: Some("q=1".to_string()), ..clone_parts(&good) };
    assert!(!is_valid_link(&with_query, &page));
    let with_fragment = UrlParts { fragment: Some("f".to_string()), ..clone_parts(&good) };
    assert!(!is_valid_link(&with_fragment, &page));
    let deep = UrlParts { path_segments: Some(texts(&["1", "2", "3", "4", "5"])), ..clone_parts(&good) };
    assert!(!is_valid_link(&deep, &page));
    assert!(!is_valid_link(&clone_parts(&page), &page));
}

fn clone_parts(u: &UrlParts) -> UrlParts {
    UrlParts {
        href: u.href.clone(),
        scheme: u.scheme.clone(),
        fragment: u.fragment.clone(),
        query: u.query.clone(),
        path_segments: u.path_segments.clone(),
    }
}

#[test]
fn present_values_skip_absent() {
    let vals = vec![Some("a".to_string()), None, Some("b".to_string())];
    assert_eq!(present_values(vals), texts(&["a", "b"]));
}

#[test]
fn sample_takes_at_most_two_distinct() {
    let links = texts(&["a", "b", "c", "d", "e"]);
    for _ in 0..20 {
        let s = sample_links(&links);
        assert_eq!(s.len(), 2);
        assert_ne!(s[0], s[1]);
        assert!(s.iter().all(|l| links.contains(l)));
    }
    assert_eq!(sample_links(&texts(&["only"])), texts(&["only"]));
    assert!(sample_links(&vec![]).is_empty());
}

#[test]
fn full_frontier_refuses_until_pop() {
    let mut f = Frontier::new(2);
    assert!(f.push("u1".to_string()).is_ok());
    assert!(f.push("u2".to_string()).is_ok());
    assert!(f.is_full());
    assert_eq!(f.push("u3".to_string()), Err("u3".to_string()));
    assert_eq!(f.len(), 2);
    assert_eq!(f.pop(), Some("u1".to_string()));
    assert!(f.push("u3".to_string()).is_ok());
    assert_eq!(f.pop(), Some("u2".to_string()));
    assert_eq!(f.pop(), Some("u3".to_string()));
    assert_eq!(f.pop(), None);
}

#[test]
fn seeded_frontier_grows_to_fit_seeds() {
    let f = Frontier::with_seeds(1, texts(&["a", "b", "c"]));
    assert_eq!(f.capacity(), 3);
    assert_eq!(f.len(), 3);
    let g = Frontier::with_seeds(10, texts(&["a"]));
    assert_eq!(g.capacity(), 10);
    assert_eq!(g.len(), 1);
}

#[test]
fn seeds_get_a_scheme() {
    assert_eq!(
        seed_urls("google.com\nhttp://x.org\r\n\nwiki.org/a "),
        texts(&["https://google.com", "http://x.org", "https://wiki.org/a"])
    );
    assert!(seed_urls("").is_empty());
}

#[test]
fn only_ok_answers_are_fetched() {
    assert_eq!(fetch_outcome(200, Some("body".to_string())), Ok("body".to_string()));
    assert_eq!(fetch_outcome(404, Some("body".to_string())), Err(CrawlError::FetchError));
    assert_eq!(fetch_outcome(200, None), Err(CrawlError::FetchError));
}

#[test]
fn task_runs_fetch_push_enqueue() {
    let (task, action) = CrawlTask::start("https://a.com/x".to_string());
    assert!(matches!(action, CrawlAction::Fetch(ref u) if u == "https://a.com/x"));
    let (task, action) = task.step(CrawlEvent::Fetched { status: 200, body: Some(PAGE.to_string()) });
    match action {
        CrawlAction::Push(page) => {
            assert_eq!(page.url, "https://a.com/x");
            assert_eq!(page.content, PAGE);
        }
        _ => panic!("expected a push"),
    }
    let (task, action) = task.step(CrawlEvent::Pushed { accepted: true });
    assert!(matches!(task, CrawlTask::Ingested));
    match action {
        CrawlAction::Enqueue(next) => {
            assert_eq!(sorted(next), texts(&["https://a.com/y", "https://b.com/z"]));
        }
        _ => panic!("expected links"),
    }
}

#[test]
fn task_failures_stop_it() {
    let (task, _) = CrawlTask::start("https://a.com/".to_string());
    let (task, action) = task.step(CrawlEvent::Fetched { status: 500, body: Some(String::new()) });
    assert!(matches!(task, CrawlTask::Failed { error: CrawlError::FetchError, .. }));
    assert!(matches!(action, CrawlAction::Stop));

    let (task, _) = CrawlTask::start("https://a.com/".to_string());
    let (task, _) = task.step(CrawlEvent::FetchFailed);
    assert!(matches!(task, CrawlTask::Failed { error: CrawlError::FetchError, .. }));

    let (task, _) = CrawlTask::start("nonsense".to_string());
    let (task, _) = task.step(CrawlEvent::Fetched { status: 200, body: Some(String::new()) });
    assert!(matches!(task, CrawlTask::Failed { error: CrawlError::ParseError, .. }));

    let (task, _) = CrawlTask::start("https://a.com/".to_string());
    let (task, _) = task.step(CrawlEvent::Fetched { status: 200, body: Some(String::new()) });
    let (task, action) = task.step(CrawlEvent::Pushed { accepted: false });
    assert!(matches!(task, CrawlTask::Failed { error: CrawlError::IngestPushError, .. }));
    assert!(matches!(action, CrawlAction::Stop));
}

#[test]
fn unexpected_event_changes_nothing() {
    let (task, _) = CrawlTask::start("https://a.com/".to_string());
    let (task, action) = task.step(CrawlEvent::Pushed { accepted: true });
    assert!(matches!(task, CrawlTask::Fetching { ref url } if url == "https://a.com/"));
    assert!(matches!(action, CrawlAction::Stop));
}

#[test]
fn page_work_gives_body_and_links() {
    let (content, next) = crawl_page("https://a.com/x", 200, Some(PAGE.to_string())).unwrap();
    assert_eq!(content, PAGE);
    assert_eq!(sorted(next), texts(&["https://a.com/y", "https://b.com/z"]));
    assert_eq!(crawl_page("https://a.com/x", 301, Some(PAGE.to_string())), Err(CrawlError::FetchError));
    assert_eq!(crawl_page("https://a.com/x", 200, None), Err(CrawlError::FetchError));
    assert_eq!(crawl_page("bad url", 200, Some(PAGE.to_string())), Err(CrawlError::ParseError));
}

#[test]
fn frontier_of_one_holds_one() {
    let mut f = Frontier::new(1);
    assert!(f.push("a".to_string()).is_ok());
    assert_eq!(f.push("b".to_string()), Err("b".to_string()));
    assert_eq!(f.pop(), Some("a".to_string()));
    assert_eq!(f.pop(), None);
    assert!(f.push("b".to_string()).is_ok());
    assert_eq!(f.len(), 1);
}
