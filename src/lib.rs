//! The core of a small web search engine: the page records exchanged between
//! crawler and indexer, the tokenizer and stemmed inverted index with its
//! AND-query engine, link extraction and filtering for the crawler, the
//! bounded URL frontier, and the per-URL crawl task state machine.
pub mod resource;
pub mod text;
pub mod index;
pub mod posting;
pub mod html;
pub mod frontier;
pub mod links;
pub mod crawl;
pub mod present;
pub mod ui;
