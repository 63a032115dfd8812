use scoutly::link_checker::{LinkChecker, ProbeOutcome};
use scoutly::models::{
    IssueSeverity, IssueType, Link, OpenGraphTags, PageInfo, PageMap,
};

fn page_with_links(url: &str, link_urls: &[&str]) -> PageInfo {
    PageInfo {
        url: url.to_string(),
        status_code: Some(200),
        content_type: Some("text/html".to_string()),
        title: None,
        meta_description: None,
        h1_tags: vec![],
        links: link_urls
            .iter()
            .map(|u| Link {
                url: u.to_string(),
                text: "t".to_string(),
                is_external: false,
                status_code: None,
                redirected_url: None,
            })
            .collect(),
        images: vec![],
        open_graph: OpenGraphTags::empty(),
        issues: vec![],
        crawl_depth: 0,
    }
}

fn three_pages_one_target() -> PageMap {
    PageMap {
        entries: vec![
            ("http://e/p1".to_string(), page_with_links("http://e/p1", &["http://t/x"])),
            ("http://e/p2".to_string(), page_with_links("http://e/p2", &["http://t/x"])),
            ("http://e/p3".to_string(), page_with_links("http://e/p3", &["http://t/x"])),
        ],
    }
}

#[test]
fn test_link_dedup_probes_once() {
    // A URL referenced identically from three pages appears exactly once
    // in the probe list.
    let checker = LinkChecker::new();
    let pages = three_pages_one_target();
    let targets = checker.collect_links(&pages);
    assert_eq!(targets, vec!["http://t/x".to_string()]);
}

#[test]
fn test_link_dedup_same_outcome_everywhere() {
    let checker = LinkChecker::new();
    let mut pages = three_pages_one_target();
    let targets = checker.collect_links(&pages);
    let outcomes = vec![ProbeOutcome { status_code: Some(200), redirected_url: None }];
    checker.apply_results(&mut pages, &targets, &outcomes, false);
    for (_, page) in &pages.entries {
        assert_eq!(page.links[0].status_code, Some(200));
        assert_eq!(page.links[0].redirected_url, None);
        assert!(page.issues.is_empty());
    }
}

#[test]
fn test_probe_fragment_difference_is_not_a_redirect() {
    let checker = LinkChecker::new();
    let outcome = checker.probe_outcome(
        "http://e/ok#section1",
        Some((200, "http://e/ok".to_string())),
    );
    assert_eq!(outcome.status_code, Some(200));
    assert_eq!(outcome.redirected_url, None);
}

#[test]
fn test_probe_real_redirect_is_recorded() {
    let checker = LinkChecker::new();
    let outcome = checker.probe_outcome(
        "http://e/redirect",
        Some((200, "http://e/ok".to_string())),
    );
    assert_eq!(outcome.status_code, Some(200));
    assert_eq!(outcome.redirected_url, Some("http://e/ok".to_string()));
}

#[test]
fn test_probe_transport_failure_records_nothing() {
    let checker = LinkChecker::new();
    let outcome = checker.probe_outcome("http://e/gone", None);
    assert_eq!(outcome.status_code, None);
    assert_eq!(outcome.redirected_url, None);
}

#[test]
fn test_redirect_issue_unless_ignored() {
    let checker = LinkChecker::new();
    let targets = vec!["http://e/redirect".to_string()];
    let outcome = ProbeOutcome {
        status_code: Some(200),
        redirected_url: Some("http://e/ok".to_string()),
    };

    let mut pages = PageMap {
        entries: vec![(
            "http://e/p".to_string(),
            page_with_links("http://e/p", &["http://e/redirect"]),
        )],
    };
    checker.apply_results(&mut pages, &targets, &vec![outcome], false);
    let page = pages.get("http://e/p").unwrap();
    assert_eq!(page.links[0].redirected_url, Some("http://e/ok".to_string()));
    assert_eq!(page.issues.len(), 1);
    assert_eq!(page.issues[0].severity, IssueSeverity::Info);
    assert_eq!(page.issues[0].issue_type, IssueType::Redirect);
    assert_eq!(
        page.issues[0].message,
        "Link redirected: http://e/redirect -> http://e/ok"
    );

    // Ignoring redirects still records the target but emits no issue.
    let mut pages2 = PageMap {
        entries: vec![(
            "http://e/p".to_string(),
            page_with_links("http://e/p", &["http://e/redirect"]),
        )],
    };
    let outcome2 = ProbeOutcome {
        status_code: Some(200),
        redirected_url: Some("http://e/ok".to_string()),
    };
    checker.apply_results(&mut pages2, &targets, &vec![outcome2], true);
    let page2 = pages2.get("http://e/p").unwrap();
    assert_eq!(page2.links[0].redirected_url, Some("http://e/ok".to_string()));
    assert!(page2.issues.is_empty());
}

#[test]
fn test_broken_link_threshold() {
    let checker = LinkChecker::new();
    let targets = vec![
        "http://e/399".to_string(),
        "http://e/400".to_string(),
        "http://e/404".to_string(),
        "http://e/dead".to_string(),
    ];
    let outcomes = vec![
        ProbeOutcome { status_code: Some(399), redirected_url: None },
        ProbeOutcome { status_code: Some(400), redirected_url: None },
        ProbeOutcome { status_code: Some(404), redirected_url: None },
        ProbeOutcome { status_code: None, redirected_url: None },
    ];
    let mut pages = PageMap {
        entries: vec![(
            "http://e/p".to_string(),
            page_with_links(
                "http://e/p",
                &["http://e/399", "http://e/400", "http://e/404", "http://e/dead"],
            ),
        )],
    };
    checker.apply_results(&mut pages, &targets, &outcomes, false);
    let page = pages.get("http://e/p").unwrap();
    // Exactly one error-severity issue per link with status 400 or above;
    // a connection failure (no status) produces none.
    assert_eq!(page.issues.len(), 2);
    for issue in &page.issues {
        assert_eq!(issue.severity, IssueSeverity::Error);
        assert_eq!(issue.issue_type, IssueType::BrokenLink);
    }
    assert_eq!(page.issues[0].message, "Broken link: http://e/400 (HTTP 400)");
    assert_eq!(page.issues[1].message, "Broken link: http://e/404 (HTTP 404)");
    assert_eq!(page.links[3].status_code, None);
}

#[test]
fn test_default_checker_works_like_new() {
    let checker = LinkChecker::default();
    let pages = three_pages_one_target();
    assert_eq!(checker.collect_links(&pages), LinkChecker::new().collect_links(&pages));
}
