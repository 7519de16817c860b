use osse::html::{description_from, first_title, first_value, ingest, page_description, page_language, page_text, page_title, unindexed_positions};
use osse::index::{count_occurrences, distance_priority, Indexer, IndexerImplementation};
use osse::present::sort_by_priority;
use osse::resource::{CrawledResource, IndexedResource};
use osse::text::{query_terms, same_text, tokenize};
use std::sync::Arc;

fn words(ws: &[&str]) -> Vec<String> {
    ws.iter().map(|w| w.to_string()).collect()
}

fn resource(url: &str, priority: u32, word: &str) -> IndexedResource {
    IndexedResource {
        url: url.to_string(),
        title: None,
        description: None,
        priority,
        word: Arc::new(word.to_string()),
        language: None,
    }
}

fn add(index: &mut IndexerImplementation, url: &str, ws: &[&str]) {
    let r = index.insert(&words(ws), url, &None, &None, &None, "");
    assert!(r.is_ok());
}

fn found_urls(index: &IndexerImplementation, term: &str) -> Vec<String> {
    let mut urls: Vec<String> = index.search(term).unwrap().into_iter().map(|r| r.url).collect();
    urls.sort();
    urls
}

#[test]
fn equal_urls_make_equal_entries() {
    let a = IndexedResource {
        url: "https://a.com/".to_string(),
        title: Some("A".to_string()),
        description: Some("first".to_string()),
        priority: 3,
        word: Arc::new("apple".to_string()),
        language: Some("en".to_string()),
    };
    let b = resource("https://a.com/", 7, "pear");
    let c = resource("https://c.com/", 3, "apple");
    assert!(a == b);
    assert!(a != c);
}

#[test]
fn same_url_twice_leaves_one_entry() {
    let mut index = IndexerImplementation::new();
    add(&mut index, "https://a.com/", &["apple"]);
    add(&mut index, "https://a.com/", &["apple", "apple"]);
    let found = index.search("apple").unwrap();
    assert_eq!(found.len(), 1);
    assert_eq!(found[0].priority, 2);
}

#[test]
fn search_needs_every_word() {
    let mut index = IndexerImplementation::new();
    add(&mut index, "https://one.com/", &["apple", "banana"]);
    add(&mut index, "https://two.com/", &["apple", "cherry"]);
    add(&mut index, "https://three.com/", &["banana", "apple"]);
    assert_eq!(found_urls(&index, "apple banana"), vec!["https://one.com/", "https://three.com/"]);
    let a = found_urls(&index, "apple");
    let b = found_urls(&index, "banana");
    let both: Vec<String> = a.iter().filter(|u| b.contains(u)).cloned().collect();
    assert_eq!(found_urls(&index, "apple banana"), both);
}

#[test]
fn intersection_keeps_first_word_entries() {
    let mut index = IndexerImplementation::new();
    add(&mut index, "https://one.com/", &["apple", "banana", "banana"]);
    let found = index.search("apple banana").unwrap();
    assert_eq!(found.len(), 1);
    assert_eq!(found[0].priority, 1);
    assert_eq!(found[0].word.as_str(), "apple");
}

#[test]
fn missing_word_finds_nothing() {
    let mut index = IndexerImplementation::new();
    add(&mut index, "https://one.com/", &["apple", "banana"]);
    assert!(index.search("apple zebra").unwrap().is_empty());
    assert!(index.search("zebra").unwrap().is_empty());
    assert!(index.search("").unwrap().is_empty());
}

#[test]
fn stemmed_forms_meet() {
    let mut index = IndexerImplementation::new();
    add(&mut index, "https://run.com/", &["running"]);
    assert_eq!(found_urls(&index, "run"), vec!["https://run.com/"]);
    let mut other = IndexerImplementation::new();
    add(&mut other, "https://run.com/", &["run"]);
    assert_eq!(found_urls(&other, "running"), vec!["https://run.com/"]);
    assert_eq!(found_urls(&other, "RUNNING"), vec!["https://run.com/"]);
}

#[test]
fn words_are_counted_per_stem() {
    let mut index = IndexerImplementation::new();
    assert_eq!(index.num_of_words(), 0);
    add(&mut index, "https://a.com/", &["cats", "cat", "dog"]);
    assert_eq!(index.num_of_words(), 2);
    let found = index.search("cat").unwrap();
    assert_eq!(found.len(), 1);
    assert_eq!(found[0].word.as_str(), "cat");
    assert_eq!(found[0].priority, 1);
}

#[test]
fn priorities_sort_highest_first() {
    let results = vec![
        resource("https://five.com/", 5, "w"),
        resource("https://one.com/", 1, "w"),
        resource("https://nine.com/", 9, "w"),
    ];
    let sorted = sort_by_priority(&results);
    let priorities: Vec<u32> = sorted.iter().map(|r| r.priority).collect();
    assert_eq!(priorities, vec![9, 5, 1]);
}

#[test]
fn equal_priorities_keep_their_order() {
    let results = vec![
        resource("https://a.com/", 2, "w"),
        resource("https://b.com/", 4, "w"),
        resource("https://c.com/", 2, "w"),
    ];
    let sorted = sort_by_priority(&results);
    let urls: Vec<&str> = sorted.iter().map(|r| r.url.as_str()).collect();
    assert_eq!(urls, vec!["https://b.com/", "https://a.com/", "https://c.com/"]);
}

#[test]
fn tokenizer_keeps_alphabetic_words() {
    let got = tokenize("Hello, World foo\nBAR baz42  \t Été");
    assert_eq!(got, words(&["world", "foo", "bar", "Été"]));
    assert!(tokenize("").is_empty());
    assert!(tokenize("  \n ").is_empty());
}

#[test]
fn query_words_are_lowercased_and_stemmed() {
    assert_eq!(query_terms("Running  DOGS"), words(&["run", "dog"]));
    assert!(query_terms("   ").is_empty());
}

#[test]
fn texts_compare_by_characters() {
    assert!(same_text("abc", "abc"));
    assert!(!same_text("abc", "abd"));
    assert!(!same_text("abc", "ab"));
}

#[test]
fn occurrences_give_priority() {
    let ws = words(&["a", "b", "a", "a"]);
    assert_eq!(count_occurrences(&ws, &"a".to_string()), 3);
    assert_eq!(count_occurrences(&ws, &"c".to_string()), 0);
}

#[test]
fn distance_score_sums_edit_distances() {
    let ws = words(&["abc", "abd", "xyz"]);
    assert_eq!(distance_priority("abc", &ws), Some(4));
    assert_eq!(distance_priority("abc", &[]), Some(0));
}

#[test]
fn page_metadata_is_extracted() {
    let html = "<html lang=\"en\"><head><title>Fish &amp; Chips</title>\
        <meta name=\"keywords\" content=\"k\">\
        <meta name=\"description\" content=\"Tasty &lt;food&gt;\"></head><body>x</body></html>";
    assert_eq!(page_title(html), Some("Fish & Chips".to_string()));
    assert_eq!(page_description(html), Some("Tasty <food>".to_string()));
    assert_eq!(page_language(html), Some("en".to_string()));
}

#[test]
fn absent_metadata_is_none() {
    let html = "<html><head><title></title></head><body>x</body></html>";
    assert_eq!(page_title(html), None);
    assert_eq!(page_description(html), None);
    assert_eq!(page_language(html), None);
}

#[test]
fn metadata_rules_on_given_values() {
    assert_eq!(first_title(&words(&["T", "U"])), Some("T".to_string()));
    assert_eq!(first_title(&words(&["", "U"])), None);
    assert_eq!(first_title(&vec![]), None);
    let names = vec![Some("description".to_string()), Some("description".to_string())];
    let contents = vec![None, Some("second".to_string())];
    assert_eq!(description_from(&names, &contents), Some("second".to_string()));
    let names = vec![Some("author".to_string())];
    let contents = vec![Some("me".to_string())];
    assert_eq!(description_from(&names, &contents), None);
    assert_eq!(first_value(&vec![None, Some("de".to_string()), Some("en".to_string())]), Some("de".to_string()));
    assert_eq!(first_value(&vec![Some("".to_string())]), None);
}

#[test]
fn ingest_indexes_prose_and_metadata() {
    let mut index = IndexerImplementation::new();
    let page = CrawledResource {
        url: "https://fish.com/".to_string(),
        content: "<html lang=\"en\"><head><title>Fish &amp; Chips</title>\
            <meta name=\"description\" content=\"About fish\">\
            <style>body { color: red }</style></head>\
            <body> <p>Fresh fish every day</p> <script>var hidden = 1;</script>\
            <noscript>secret</noscript> <p>fish</p></body></html>"
            .to_string(),
    };
    assert!(ingest(&mut index, &page).is_ok());
    let found = index.search("fish").unwrap();
    assert_eq!(found.len(), 1);
    assert_eq!(found[0].url, "https://fish.com/");
    assert_eq!(found[0].title, Some("Fish & Chips".to_string()));
    assert_eq!(found[0].description, Some("About fish".to_string()));
    assert_eq!(found[0].language, Some("en".to_string()));
    assert_eq!(found[0].priority, 3);
    assert!(index.search("hidden").unwrap().is_empty());
    assert!(index.search("secret").unwrap().is_empty());
    assert!(index.search("color").unwrap().is_empty());
    assert_eq!(index.search("fresh day").unwrap().len(), 1);
}

#[test]
fn unindexed_nodes_are_found_by_name() {
    let names = vec![
        None,
        Some("html".to_string()),
        Some("script".to_string()),
        None,
        Some("p".to_string()),
        Some("style".to_string()),
        Some("noscript".to_string()),
    ];
    assert_eq!(unindexed_positions(&names), vec![2, 5, 6]);
    assert!(unindexed_positions(&vec![]).is_empty());
}

#[test]
fn page_text_drops_non_prose() {
    let text = page_text("<html><body><p>one</p><script>two</script><style>p{}</style><p>three</p></body></html>");
    assert_eq!(text, "onethree");
}

#[test]
fn title_with_attributes_is_stable() {
    let html = "<html><body><svg><title><a href=\"x\" id=\"y\" class=\"z\">t</a></title></svg></body></html>";
    let first = page_title(html);
    for _ in 0..10 {
        assert_eq!(page_title(html), first);
    }
}
