#![verifier::loop_isolation(false)]
//! Structured-data extraction for HTML documents.
//!
//! The crate builds typed indices over an HTML document (JSON-LD blocks,
//! microdata items, OpenGraph and meta tags, JavaScript variable bindings,
//! and the element tree itself) and resolves extraction specifications
//! against them through a compact path language.  It also holds the pure
//! decision logic of the polite-crawling support: robots.txt evaluation
//! and caching, sitemap parsing, and batch-crawl scheduling.

pub mod chars;
pub mod content;
pub mod crawl;
pub mod defaults;
pub mod dom;
pub mod extract;
pub mod index;
pub mod json;
pub mod jsonld;
pub mod jsonparse;
pub mod jsontext;
pub mod jsvars;
pub mod laws;
pub mod microdata;
pub mod opengraph;
pub mod pathlang;
pub mod robots;
pub mod sitemap;

