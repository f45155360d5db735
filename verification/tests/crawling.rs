//! Sitemaps, robots.txt, and batch-crawl scheduling.

use rust_parser::crawl::{CrawlPlanner, HostPacer};
use rust_parser::robots::{
    extract_crawl_delay, extract_sitemaps, robots_allowed, url_parts, RobotsCache,
};
use rust_parser::sitemap::{parse_sitemap, SitemapCrawl};

fn chars(s: &str) -> Vec<char> {
    s.chars().collect()
}

#[test]
fn test_parse_urlset() {
    let xml = r#"<?xml version="1.0" encoding="UTF-8"?>
    <urlset xmlns="http://www.sitemaps.org/schemas/sitemap/0.9">
        <url>
            <loc>https://example.com/page1</loc>
            <lastmod>2024-01-15</lastmod>
            <changefreq>daily</changefreq>
            <priority>0.8</priority>
        </url>
        <url>
            <loc>https://example.com/page2</loc>
        </url>
    </urlset>"#;

    let result = parse_sitemap(xml);
    assert_eq!(result.urls.len(), 2);
    assert_eq!(result.urls[0].url, "https://example.com/page1");
    assert_eq!(result.urls[0].lastmod, Some("2024-01-15".to_string()));
    assert_eq!(result.urls[0].priority, Some("0.8".to_string()));
    assert_eq!(result.urls[1].url, "https://example.com/page2");
}

#[test]
fn test_parse_sitemapindex() {
    let xml = r#"<?xml version="1.0" encoding="UTF-8"?>
    <sitemapindex xmlns="http://www.sitemaps.org/schemas/sitemap/0.9">
        <sitemap>
            <loc>https://example.com/sitemap1.xml</loc>
            <lastmod>2024-01-15</lastmod>
        </sitemap>
        <sitemap>
            <loc>https://example.com/sitemap2.xml</loc>
        </sitemap>
    </sitemapindex>"#;

    let result = parse_sitemap(xml);
    assert_eq!(result.sitemaps.len(), 2);
    assert_eq!(result.sitemaps[0].url, "https://example.com/sitemap1.xml");
}

#[test]
fn malformed_xml_keeps_what_was_parsed() {
    let xml = "<urlset><url><loc>https://example.com/ok</loc></url></wrong>";
    let result = parse_sitemap(xml);
    assert_eq!(result.urls.len(), 1);
    assert_eq!(result.urls[0].url, "https://example.com/ok");
    assert_eq!(result.errors.len(), 1);
}

#[test]
fn bad_priority_is_dropped() {
    let xml = "<urlset><url><loc>u</loc><priority>soon</priority></url></urlset>";
    let result = parse_sitemap(xml);
    assert_eq!(result.urls.len(), 1);
    assert_eq!(result.urls[0].priority, None);
}

const INDEX_XML: &str = r#"<sitemapindex>
    <sitemap><loc>https://example.com/a.xml</loc></sitemap>
    <sitemap><loc>https://example.com/b.xml</loc></sitemap>
</sitemapindex>"#;

const URLSET_A: &str = r#"<urlset>
    <url><loc>https://example.com/a1</loc></url>
    <url><loc>https://example.com/a2</loc></url>
</urlset>"#;

const URLSET_B: &str = r#"<urlset>
    <url><loc>https://example.com/b1</loc></url>
</urlset>"#;

#[test]
fn sitemap_recursion_within_depth_unions_urls() {
    let mut crawl = SitemapCrawl::new("https://example.com/root.xml", true, 1);

    let (url, depth) = crawl.next_fetch().expect("root queued");
    assert_eq!(url, "https://example.com/root.xml");
    assert_eq!(depth, 0);
    crawl.record_document(depth, INDEX_XML);

    let (url, depth) = crawl.next_fetch().expect("first child queued");
    assert_eq!(url, "https://example.com/a.xml");
    assert_eq!(depth, 1);
    crawl.record_document(depth, URLSET_A);

    let (url, depth) = crawl.next_fetch().expect("second child queued");
    assert_eq!(url, "https://example.com/b.xml");
    crawl.record_document(depth, URLSET_B);

    assert!(crawl.next_fetch().is_none());
    let urls: Vec<String> = crawl.urls.iter().map(|u| u.url.clone()).collect();
    assert_eq!(
        urls,
        vec![
            "https://example.com/a1".to_string(),
            "https://example.com/a2".to_string(),
            "https://example.com/b1".to_string(),
        ]
    );
    assert!(crawl.sitemaps.is_empty());
}

#[test]
fn sitemap_depth_zero_keeps_children_residual() {
    let mut crawl = SitemapCrawl::new("https://example.com/root.xml", true, 0);
    let (_, depth) = crawl.next_fetch().expect("root queued");
    crawl.record_document(depth, INDEX_XML);
    assert!(crawl.next_fetch().is_none());
    assert!(crawl.urls.is_empty());
    let refs: Vec<String> = crawl.sitemaps.iter().map(|s| s.url.clone()).collect();
    assert_eq!(
        refs,
        vec![
            "https://example.com/a.xml".to_string(),
            "https://example.com/b.xml".to_string(),
        ]
    );
}

#[test]
fn sitemap_fetch_failure_is_nonfatal() {
    let mut crawl = SitemapCrawl::new("https://example.com/root.xml", true, 2);
    let _ = crawl.next_fetch().unwrap();
    crawl.record_failure("fetch failed".to_string());
    assert!(crawl.next_fetch().is_none());
    assert_eq!(crawl.errors, vec!["fetch failed".to_string()]);
}

#[test]
fn robots_allow_and_disallow() {
    let txt = "User-agent: *\nDisallow: /private\n";
    assert!(!robots_allowed("TestBot", txt, "https://example.com/private/page"));
    assert!(robots_allowed("TestBot", txt, "https://example.com/public"));
    // An empty text allows everything.
    assert!(robots_allowed("TestBot", "", "https://example.com/private/page"));
}

#[test]
fn crawl_delay_prefers_matching_section() {
    // The matching section's delay wins even when the `*` section comes
    // first; agents the text never names fall back to the `*` section.
    let txt = "User-agent: *\nCrawl-delay: 1\n\nUser-agent: testbot\nCrawl-delay: 2.5\n";
    assert_eq!(extract_crawl_delay(txt, "TestBot/1.0"), Some("2.5".to_string()));
    assert_eq!(extract_crawl_delay(txt, "OtherBot"), Some("1".to_string()));
    // A delay in a section that matches neither the agent nor `*` is no
    // fallback.
    assert_eq!(extract_crawl_delay("User-agent: other\nCrawl-delay: 7\n", "mybot"), None);
    assert_eq!(extract_crawl_delay("User-agent: *\n", "TestBot"), None);
    // A delay that does not read as a number is ignored.
    assert_eq!(extract_crawl_delay("User-agent: *\nCrawl-delay: soon\n", "T"), None);
}

#[test]
fn sitemap_directives_are_collected_from_all_sections() {
    let txt = "User-agent: a\nSitemap: https://example.com/S1.xml\nUser-agent: b\nsitemap: https://example.com/s2.xml\n";
    assert_eq!(
        extract_sitemaps(txt),
        vec![
            "https://example.com/S1.xml".to_string(),
            "https://example.com/s2.xml".to_string(),
        ]
    );
}

#[test]
fn robots_cache_answers_within_the_hour() {
    let mut cache = RobotsCache::new();
    let host = chars("example.com");
    let txt = "User-agent: *\nDisallow: /private\nSitemap: https://example.com/s.xml\n";

    let first = cache.record(&host, txt, "https://example.com/private/x", "TestBot", 1000);
    assert!(!first.allowed);
    assert_eq!(first.sitemaps, vec!["https://example.com/s.xml".to_string()]);

    // Within 3600 s the entry answers: no second fetch is asked.
    let entry = cache.fresh_entry(&host, 1000 + 3599).expect("fresh within the hour");
    let again = RobotsCache::check_cached(entry, "https://example.com/public", "TestBot");
    assert!(again.allowed);
    assert_eq!(again.sitemaps, first.sitemaps);

    // At 3600 s the entry has expired and a fetch is due again.
    assert!(cache.fresh_entry(&host, 1000 + 3600).is_none());
    assert!(cache.fresh_entry(&chars("other.example"), 1000).is_none());
}

#[test]
fn url_parts_reads_scheme_and_host() {
    let (scheme, host) = url_parts("https://Example.COM/path").expect("parses");
    assert_eq!(scheme, "https");
    assert_eq!(host.as_deref(), Some("example.com"));
    assert!(url_parts("not a url").is_none());
}

#[test]
fn planner_keeps_concurrency_bound() {
    let urls = vec!["https://h/1".to_string(), "https://h/2".to_string(), "https://h/3".to_string()];
    let mut p = CrawlPlanner::new(urls, 1, 200);

    let first = p.start_next().map(|u| u.clone());
    assert_eq!(first.as_deref(), Some("https://h/1"));
    // With concurrency one, the second dispatch waits for the first to finish.
    assert!(p.start_next().is_none());
    p.finish();
    let second = p.start_next().map(|u| u.clone());
    assert_eq!(second.as_deref(), Some("https://h/2"));
    p.finish();
    assert!(p.start_next().is_some());
    p.finish();
    assert!(p.start_next().is_none());
}

#[test]
fn planner_clamps_requested_concurrency() {
    let p = CrawlPlanner::new(Vec::new(), 0, 0);
    assert_eq!(p.limit, 1);
    let p = CrawlPlanner::new(Vec::new(), 100, 0);
    assert_eq!(p.limit, 32);
    let p = CrawlPlanner::new(Vec::new(), 4, 0);
    assert_eq!(p.limit, 4);
}

#[test]
fn same_host_fetches_sit_a_delay_apart() {
    // Three fetches to one host with a 200 ms gap and one slot: the
    // planned dispatch times come out 0, 200 and 400 — at least 400 ms
    // of wall time for the batch.
    let mut pacer = HostPacer::new(200);
    let host = chars("h");

    let w1 = pacer.reserve(&host, 0);
    assert_eq!(w1, 0);
    let w2 = pacer.reserve(&host, 0);
    assert_eq!(w2, 200);
    let w3 = pacer.reserve(&host, 200);
    assert_eq!(w3, 200);

    // A different host is not held back.
    let other = chars("elsewhere");
    assert_eq!(pacer.reserve(&other, 5), 0);
}
