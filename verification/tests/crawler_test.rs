use scoutly::crawler::{CrawlError, Crawler, CrawlerConfig, PageFetch, RawLink};
use scoutly::models::OpenGraphTags;
use scoutly::urls::{is_external_url, normalize_url, UrlParts};

fn config(max_depth: usize, max_pages: usize) -> CrawlerConfig {
    CrawlerConfig {
        max_depth,
        max_pages,
        follow_external: false,
        keep_fragments: false,
        requests_per_second: None,
        concurrent_requests: 5,
        respect_robots_txt: false,
    }
}

fn parts(scheme: &str, host: &str, port: Option<u16>, path: &str) -> UrlParts {
    UrlParts {
        scheme: scheme.to_string(),
        host: Some(host.to_string()),
        port,
        path: path.to_string(),
    }
}

fn link(url: &str, path: &str) -> RawLink {
    RawLink {
        url: url.to_string(),
        text: "a link".to_string(),
        parts: parts("http", "example.com", None, path),
    }
}

fn external_link(url: &str) -> RawLink {
    RawLink {
        url: url.to_string(),
        text: "elsewhere".to_string(),
        parts: parts("http", "other.com", None, "/x"),
    }
}

fn success(links: Vec<RawLink>) -> PageFetch {
    PageFetch::Success {
        status_code: 200,
        content_type: Some("text/html".to_string()),
        title: Some("A".to_string()),
        meta_description: None,
        h1_tags: vec![],
        links,
        images: vec![],
        open_graph: OpenGraphTags::empty(),
    }
}

#[test]
fn test_invalid_url_rejected() {
    let r = Crawler::new("example.com", config(5, 200));
    assert!(matches!(r, Err(CrawlError::InvalidUrl)));
}

#[test]
fn test_invalid_scheme_rejected() {
    let r = Crawler::new("ftp://example.com", config(5, 200));
    match r {
        Err(e) => {
            assert_eq!(e, CrawlError::InvalidScheme);
            assert_eq!(
                e.message(),
                "Invalid URL scheme: only http and https are supported"
            );
        }
        Ok(_) => panic!("ftp scheme must be rejected"),
    }
}

#[test]
fn test_valid_schemes_accepted() {
    assert!(Crawler::new("http://example.com", config(5, 200)).is_ok());
    assert!(Crawler::new("https://example.com", config(5, 200)).is_ok());
}

#[test]
fn test_depth_zero_crawls_exactly_the_seed() {
    let mut c = Crawler::new("http://example.com", config(0, 10)).unwrap();
    let batch = c.start_batch();
    assert_eq!(batch, vec!["http://example.com".to_string()]);
    c.record_results(vec![success(vec![
        link("http://example.com/a", "/a"),
        link("http://example.com/b", "/b"),
    ])]);
    assert!(c.is_done());
    assert_eq!(c.pages.len(), 1);
    let page = c.pages.get("http://example.com").expect("seed page recorded");
    assert_eq!(page.crawl_depth, 0);
    // The links are still recorded on the page even though none is followed.
    assert_eq!(page.links.len(), 2);
}

#[test]
fn test_max_pages_bound_is_exact() {
    // A site with far more than three reachable pages, crawled with a
    // budget of three, yields exactly three records.
    let mut c = Crawler::new("http://example.com", config(5, 3)).unwrap();
    let mut fetches = 0;
    while !c.is_done() {
        let batch = c.start_batch();
        if batch.is_empty() {
            break;
        }
        let results: Vec<PageFetch> = batch
            .iter()
            .map(|_| {
                let links: Vec<RawLink> = (0..20)
                    .map(|i| {
                        let path = format!("/p{}", i);
                        let url = format!("http://example.com{}", path);
                        link(&url, &path)
                    })
                    .collect();
                success(links)
            })
            .collect();
        fetches += results.len();
        c.record_results(results);
    }
    assert_eq!(c.pages.len(), 3);
    assert_eq!(fetches, 3);
}

#[test]
fn test_depth_bound_holds_everywhere() {
    let mut c = Crawler::new("http://example.com", config(1, 50)).unwrap();
    loop {
        let batch = c.start_batch();
        if batch.is_empty() {
            break;
        }
        let results: Vec<PageFetch> = batch
            .iter()
            .map(|_| {
                success(vec![
                    link("http://example.com/a", "/a"),
                    link("http://example.com/b", "/b"),
                ])
            })
            .collect();
        c.record_results(results);
    }
    // Seed at depth 0 plus /a and /b at depth 1; their links are not followed.
    assert_eq!(c.pages.len(), 3);
    for (_, page) in &c.pages.entries {
        assert!(page.crawl_depth <= 1);
    }
}

#[test]
fn test_normalize_strips_fragment() {
    assert_eq!(normalize_url("http://e/p#a", false), "http://e/p");
    assert_eq!(normalize_url("http://e/p", false), "http://e/p");
    assert_eq!(normalize_url("http://e/p#a", true), "http://e/p#a");
}

#[test]
fn test_normalize_is_idempotent() {
    let once = normalize_url("http://e/p#a#b", false);
    let twice = normalize_url(&once, false);
    assert_eq!(once, twice);
}

#[test]
fn test_fragment_links_collapse_to_one_page() {
    let mut c = Crawler::new("http://example.com", config(5, 50)).unwrap();
    let batch = c.start_batch();
    assert_eq!(batch.len(), 1);
    c.record_results(vec![success(vec![
        link("http://example.com/p#a", "/p"),
        link("http://example.com/p#b", "/p"),
    ])]);
    // Both fragment variants are preserved verbatim in the page's links.
    let seed = c.pages.get("http://example.com").unwrap();
    assert_eq!(seed.links[0].url, "http://example.com/p#a");
    assert_eq!(seed.links[1].url, "http://example.com/p#b");
    // But only one page is fetched for them.
    let batch2 = c.start_batch();
    assert_eq!(batch2, vec!["http://example.com/p#a".to_string()]);
    c.record_results(vec![success(vec![])]);
    assert_eq!(c.pages.len(), 2);
    assert!(c.pages.contains_key("http://example.com/p"));
    assert!(!c.pages.contains_key("http://example.com/p#a"));
}

#[test]
fn test_keep_fragments_distinguishes_pages() {
    let mut cfg = config(5, 50);
    cfg.keep_fragments = true;
    let mut c = Crawler::new("http://example.com", cfg).unwrap();
    c.start_batch();
    c.record_results(vec![success(vec![
        link("http://example.com/p#a", "/p"),
        link("http://example.com/p#b", "/p"),
    ])]);
    let batch2 = c.start_batch();
    assert_eq!(batch2.len(), 2);
    c.record_results(vec![success(vec![]), success(vec![])]);
    assert_eq!(c.pages.len(), 3);
    assert!(c.pages.contains_key("http://example.com/p#a"));
    assert!(c.pages.contains_key("http://example.com/p#b"));
}

#[test]
fn test_external_classification_by_port() {
    // Same host on a different port is external; the same port is internal.
    let origin = parts("http", "h", Some(80), "/");
    assert!(is_external_url(&parts("http", "h", Some(81), "/x"), &origin));
    assert!(!is_external_url(&parts("http", "h", Some(80), "/y"), &origin));
    // An explicit port also differs from no port at all.
    let origin_default = parts("http", "h", None, "/");
    assert!(is_external_url(&parts("http", "h", Some(81), "/x"), &origin_default));
    assert!(!is_external_url(&parts("http", "h", None, "/y"), &origin_default));
}

#[test]
fn test_external_classification_by_host() {
    let origin = parts("http", "h", None, "/");
    assert!(is_external_url(&parts("http", "other", None, "/"), &origin));
}

fn crawl_with(follow_external: bool) -> Crawler {
    let mut cfg = config(5, 50);
    cfg.follow_external = follow_external;
    let mut c = Crawler::new("http://example.com", cfg).unwrap();
    c.start_batch();
    c.record_results(vec![success(vec![
        link("http://example.com/in", "/in"),
        external_link("http://other.com/x"),
    ])]);
    loop {
        let batch = c.start_batch();
        if batch.is_empty() {
            break;
        }
        let results: Vec<PageFetch> = batch.iter().map(|_| success(vec![])).collect();
        c.record_results(results);
    }
    c
}

#[test]
fn test_follow_external_changes_fetches_not_links() {
    let without = crawl_with(false);
    let with = crawl_with(true);
    // The links extracted and their classification are identical.
    let seed_a = without.pages.get("http://example.com").unwrap();
    let seed_b = with.pages.get("http://example.com").unwrap();
    assert_eq!(seed_a.links.len(), seed_b.links.len());
    for (la, lb) in seed_a.links.iter().zip(seed_b.links.iter()) {
        assert_eq!(la.url, lb.url);
        assert_eq!(la.is_external, lb.is_external);
    }
    assert!(!seed_a.links[0].is_external);
    assert!(seed_a.links[1].is_external);
    // Only which pages get fetched differs: no external URL is a key
    // when external links are not followed.
    assert!(!without.pages.contains_key("http://other.com/x"));
    assert_eq!(without.pages.len(), 2);
    assert!(with.pages.contains_key("http://other.com/x"));
    assert_eq!(with.pages.len(), 3);
}

#[test]
fn test_robots_denied_url_is_never_fetched() {
    let mut cfg = config(5, 50);
    cfg.respect_robots_txt = true;
    let mut c = Crawler::new("http://example.com", cfg).unwrap();
    let target = c.robots_target().expect("robots.txt requested once");
    assert_eq!(target, "http://example.com/robots.txt");
    c.record_robots(Some("User-agent: *\nDisallow: /admin\n"));
    assert!(c.robots_target().is_none());
    c.start_batch();
    c.record_results(vec![success(vec![
        link("http://example.com/admin", "/admin"),
        link("http://example.com/ok", "/ok"),
    ])]);
    let batch2 = c.start_batch();
    assert_eq!(batch2, vec!["http://example.com/ok".to_string()]);
    c.record_results(vec![success(vec![])]);
    assert!(!c.pages.contains_key("http://example.com/admin"));
    assert!(c.pages.contains_key("http://example.com/ok"));
}

#[test]
fn test_failed_fetch_still_records_page() {
    let mut c = Crawler::new("http://example.com", config(5, 10)).unwrap();
    c.start_batch();
    c.record_results(vec![PageFetch::Failure]);
    assert_eq!(c.pages.len(), 1);
    let page = c.pages.get("http://example.com").unwrap();
    assert_eq!(page.status_code, None);
    assert_eq!(page.links.len(), 0);
    assert_eq!(page.title, None);
}
