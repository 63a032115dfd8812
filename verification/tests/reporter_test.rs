use scoutly::models::{
    IssueSeverity, IssueType, Link, OpenGraphTags, PageInfo, PageMap, SeoIssue,
};
use scoutly::reporter::Reporter;

fn create_test_page(
    url: &str,
    status_code: Option<u16>,
    title: Option<&str>,
    issues: Vec<SeoIssue>,
    links: Vec<Link>,
    crawl_depth: usize,
) -> PageInfo {
    PageInfo {
        url: url.to_string(),
        status_code,
        content_type: Some("text/html".to_string()),
        title: title.map(|t| t.to_string()),
        meta_description: None,
        h1_tags: vec![],
        links,
        images: vec![],
        open_graph: OpenGraphTags::empty(),
        issues,
        crawl_depth,
    }
}

fn create_test_issue(severity: IssueSeverity, message: &str) -> SeoIssue {
    let issue_type = match severity {
        IssueSeverity::Error => IssueType::MissingTitle,
        IssueSeverity::Warning => IssueType::MissingImageAlt,
        IssueSeverity::Info => IssueType::Redirect,
    };

    SeoIssue {
        severity,
        issue_type,
        message: message.to_string(),
    }
}

fn create_test_link(url: &str, status_code: Option<u16>) -> Link {
    Link {
        url: url.to_string(),
        text: "Link Text".to_string(),
        is_external: false,
        status_code,
        redirected_url: None,
    }
}

#[test]
fn test_generate_report_empty_pages() {
    let pages = PageMap { entries: vec![] };
    let report = Reporter::generate_report("https://example.com", &pages);

    assert_eq!(report.start_url, "https://example.com");
    assert_eq!(report.summary.total_pages, 0);
    assert_eq!(report.summary.total_links, 0);
    assert_eq!(report.summary.broken_links, 0);
    assert_eq!(report.summary.errors, 0);
    assert_eq!(report.summary.warnings, 0);
    assert_eq!(report.summary.infos, 0);
    assert!(!report.timestamp.is_empty());
}

#[test]
fn test_generate_report_with_all_severity_types() {
    let issues = vec![
        create_test_issue(IssueSeverity::Error, "Error issue"),
        create_test_issue(IssueSeverity::Warning, "Warning issue"),
        create_test_issue(IssueSeverity::Info, "Info issue"),
    ];

    let links = vec![
        create_test_link("https://example.com/page1", Some(200)),
        create_test_link("https://example.com/page2", Some(404)),
        create_test_link("https://example.com/page3", Some(500)),
    ];

    let page = create_test_page(
        "https://example.com",
        Some(200),
        Some("Test Page"),
        issues,
        links,
        0,
    );

    let pages = PageMap { entries: vec![("https://example.com".to_string(), page)] };

    let report = Reporter::generate_report("https://example.com", &pages);

    assert_eq!(report.summary.total_pages, 1);
    assert_eq!(report.summary.total_links, 3);
    assert_eq!(report.summary.broken_links, 2); // 404 and 500
    assert_eq!(report.summary.errors, 1);
    assert_eq!(report.summary.warnings, 1);
    assert_eq!(report.summary.infos, 1);
}

#[test]
fn test_generate_report_multiple_pages() {
    // Page 1: with errors and broken links
    let page1_issues = vec![
        create_test_issue(IssueSeverity::Error, "Error 1"),
        create_test_issue(IssueSeverity::Error, "Error 2"),
    ];
    let page1_links = vec![
        create_test_link("https://example.com/link1", Some(404)),
        create_test_link("https://example.com/link2", Some(200)),
    ];
    let page1 = create_test_page(
        "https://example.com/page1",
        Some(200),
        Some("Page 1"),
        page1_issues,
        page1_links,
        1,
    );

    // Page 2: with warnings
    let page2_issues = vec![
        create_test_issue(IssueSeverity::Warning, "Warning 1"),
        create_test_issue(IssueSeverity::Warning, "Warning 2"),
        create_test_issue(IssueSeverity::Warning, "Warning 3"),
    ];
    let page2_links = vec![create_test_link("https://example.com/link3", Some(200))];
    let page2 = create_test_page(
        "https://example.com/page2",
        Some(200),
        Some("Page 2"),
        page2_issues,
        page2_links,
        2,
    );

    // Page 3: with info issues
    let page3_issues = vec![
        create_test_issue(IssueSeverity::Info, "Info 1"),
        create_test_issue(IssueSeverity::Info, "Info 2"),
    ];
    let page3 = create_test_page(
        "https://example.com/page3",
        Some(200),
        None, // No title
        page3_issues,
        vec![],
        0,
    );

    let pages = PageMap {
        entries: vec![
            ("https://example.com/page1".to_string(), page1),
            ("https://example.com/page2".to_string(), page2),
            ("https://example.com/page3".to_string(), page3),
        ],
    };

    let report = Reporter::generate_report("https://example.com", &pages);

    assert_eq!(report.summary.total_pages, 3);
    assert_eq!(report.summary.total_links, 3);
    assert_eq!(report.summary.broken_links, 1);
    assert_eq!(report.summary.errors, 2);
    assert_eq!(report.summary.warnings, 3);
    assert_eq!(report.summary.infos, 2);
}

#[test]
fn test_generate_report_broken_links_boundary() {
    // Status codes at the broken-link boundary.
    let links = vec![
        create_test_link("https://example.com/ok", Some(200)),
        create_test_link("https://example.com/redirect", Some(301)),
        create_test_link("https://example.com/redirect2", Some(399)),
        create_test_link("https://example.com/bad", Some(400)), // Broken
        create_test_link("https://example.com/notfound", Some(404)), // Broken
        create_test_link("https://example.com/error", Some(500)), // Broken
    ];

    let page = create_test_page("https://example.com", Some(200), None, vec![], links, 0);
    let pages = PageMap { entries: vec![("https://example.com".to_string(), page)] };

    let report = Reporter::generate_report("https://example.com", &pages);

    assert_eq!(report.summary.total_links, 6);
    assert_eq!(report.summary.broken_links, 3); // 400, 404, 500
}

#[test]
fn test_generate_report_links_without_status_code() {
    let links = vec![
        create_test_link("https://example.com/page1", None),
        create_test_link("https://example.com/page2", None),
        create_test_link("https://example.com/page3", Some(404)),
    ];

    let page = create_test_page("https://example.com", Some(200), None, vec![], links, 0);
    let pages = PageMap { entries: vec![("https://example.com".to_string(), page)] };

    let report = Reporter::generate_report("https://example.com", &pages);

    assert_eq!(report.summary.total_links, 3);
    assert_eq!(report.summary.broken_links, 1); // Only the 404
}

#[test]
fn test_pages_cloned_in_report() {
    let page = create_test_page(
        "https://example.com",
        Some(200),
        Some("Test"),
        vec![],
        vec![],
        0,
    );

    let pages = PageMap { entries: vec![("https://example.com".to_string(), page)] };

    let report = Reporter::generate_report("https://example.com", &pages);

    assert_eq!(report.pages.len(), 1);
    assert!(report.pages.contains_key("https://example.com"));
}

#[test]
fn test_calculate_summary_counts() {
    let pages = PageMap {
        entries: vec![
            (
                "http://e/a".to_string(),
                create_test_page(
                    "http://e/a",
                    Some(200),
                    None,
                    vec![
                        create_test_issue(IssueSeverity::Error, "e"),
                        create_test_issue(IssueSeverity::Warning, "w"),
                    ],
                    vec![
                        create_test_link("http://e/l1", Some(200)),
                        create_test_link("http://e/l2", Some(404)),
                        create_test_link("http://e/l3", None),
                    ],
                    0,
                ),
            ),
            (
                "http://e/b".to_string(),
                create_test_page(
                    "http://e/b",
                    Some(200),
                    None,
                    vec![
                        create_test_issue(IssueSeverity::Warning, "w"),
                        create_test_issue(IssueSeverity::Warning, "w"),
                        create_test_issue(IssueSeverity::Info, "i"),
                    ],
                    vec![
                        create_test_link("http://e/l4", Some(500)),
                        create_test_link("http://e/l5", Some(399)),
                    ],
                    1,
                ),
            ),
        ],
    };
    let summary = Reporter::calculate_summary(&pages);
    assert_eq!(summary.total_pages, 2);
    assert_eq!(summary.total_links, 5);
    assert_eq!(summary.broken_links, 2);
    assert_eq!(summary.errors, 1);
    assert_eq!(summary.warnings, 3);
    assert_eq!(summary.infos, 1);
}
