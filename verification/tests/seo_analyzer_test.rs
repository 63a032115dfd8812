use scoutly::models::{
    Image, IssueSeverity, IssueType, Link, OpenGraphTags, PageInfo, PageMap, SeoIssue,
};
use scoutly::seo_analyzer::SeoAnalyzer;

fn html_page(title: Option<&str>, meta: Option<&str>, h1s: &[&str]) -> PageInfo {
    PageInfo {
        url: "http://e/p".to_string(),
        status_code: Some(200),
        content_type: Some("text/html; charset=utf-8".to_string()),
        title: title.map(|s| s.to_string()),
        meta_description: meta.map(|s| s.to_string()),
        h1_tags: h1s.iter().map(|s| s.to_string()).collect(),
        links: vec![],
        images: vec![],
        open_graph: OpenGraphTags::empty(),
        issues: vec![],
        crawl_depth: 0,
    }
}

fn issues_of(page: PageInfo) -> Vec<SeoIssue> {
    let mut p = page;
    SeoAnalyzer::analyze_page(&mut p);
    p.issues
}

fn has_issue(issues: &[SeoIssue], t: IssueType, sev: IssueSeverity) -> bool {
    issues.iter().any(|i| i.issue_type == t && i.severity == sev)
}

#[test]
fn test_missing_title_is_an_error() {
    let issues = issues_of(html_page(None, None, &["h"]));
    assert!(has_issue(&issues, IssueType::MissingTitle, IssueSeverity::Error));
    let issues2 = issues_of(html_page(Some(""), None, &["h"]));
    assert!(has_issue(&issues2, IssueType::MissingTitle, IssueSeverity::Error));
}

#[test]
fn test_title_length_messages_are_exact() {
    let issues = issues_of(html_page(Some("short title"), None, &["h"]));
    let short = issues
        .iter()
        .find(|i| i.issue_type == IssueType::TitleTooShort)
        .expect("short title flagged");
    assert_eq!(short.severity, IssueSeverity::Warning);
    assert_eq!(short.message, "Title is too short (11 chars, recommended: 50-60)");

    let long_title = "x".repeat(61);
    let issues2 = issues_of(html_page(Some(&long_title), None, &["h"]));
    let long = issues2
        .iter()
        .find(|i| i.issue_type == IssueType::TitleTooLong)
        .expect("long title flagged");
    assert_eq!(long.message, "Title is too long (61 chars, recommended: 50-60)");

    let fine = "x".repeat(55);
    let issues3 = issues_of(html_page(Some(&fine), None, &["h"]));
    assert!(!has_issue(&issues3, IssueType::TitleTooShort, IssueSeverity::Warning));
    assert!(!has_issue(&issues3, IssueType::TitleTooLong, IssueSeverity::Warning));
}

#[test]
fn test_meta_description_checks() {
    let issues = issues_of(html_page(Some("t"), None, &["h"]));
    assert!(has_issue(&issues, IssueType::MissingMetaDescription, IssueSeverity::Error));

    let short_meta = "too short";
    let issues2 = issues_of(html_page(Some("t"), Some(short_meta), &["h"]));
    let short = issues2
        .iter()
        .find(|i| i.issue_type == IssueType::MetaDescriptionTooShort)
        .expect("short meta flagged");
    assert_eq!(
        short.message,
        "Meta description is too short (9 chars, recommended: 150-160)"
    );

    let long_meta = "m".repeat(161);
    let issues3 = issues_of(html_page(Some("t"), Some(&long_meta), &["h"]));
    assert!(has_issue(&issues3, IssueType::MetaDescriptionTooLong, IssueSeverity::Warning));

    let fine_meta = "m".repeat(155);
    let issues4 = issues_of(html_page(Some("t"), Some(&fine_meta), &["h"]));
    assert!(!has_issue(&issues4, IssueType::MetaDescriptionTooShort, IssueSeverity::Warning));
    assert!(!has_issue(&issues4, IssueType::MetaDescriptionTooLong, IssueSeverity::Warning));
}

#[test]
fn test_h1_checks() {
    let issues = issues_of(html_page(Some("t"), None, &[]));
    assert!(has_issue(&issues, IssueType::MissingH1, IssueSeverity::Warning));

    let issues2 = issues_of(html_page(Some("t"), None, &["a", "b", "c"]));
    let multi = issues2
        .iter()
        .find(|i| i.issue_type == IssueType::MultipleH1)
        .expect("multiple H1 flagged");
    assert_eq!(multi.message, "Page has multiple H1 tags (3)");

    let issues3 = issues_of(html_page(Some("t"), None, &["only"]));
    assert!(!has_issue(&issues3, IssueType::MissingH1, IssueSeverity::Warning));
    assert!(!has_issue(&issues3, IssueType::MultipleH1, IssueSeverity::Warning));
}

#[test]
fn test_missing_image_alt_counted() {
    let mut page = html_page(Some("t"), None, &["h"]);
    page.images = vec![
        Image { src: "http://e/1.png".to_string(), alt: None },
        Image { src: "http://e/2.png".to_string(), alt: Some("fine".to_string()) },
        Image { src: "http://e/3.png".to_string(), alt: None },
    ];
    let issues = issues_of(page);
    let alt = issues
        .iter()
        .find(|i| i.issue_type == IssueType::MissingImageAlt)
        .expect("missing alt flagged");
    assert_eq!(alt.message, "2 image(s) missing alt text");
}

#[test]
fn test_thin_content_heuristic() {
    let thin = issues_of(html_page(Some("t"), None, &["h"]));
    assert!(has_issue(&thin, IssueType::ThinContent, IssueSeverity::Warning));

    let mut rich = html_page(Some("t"), None, &["h"]);
    rich.links = (0..5)
        .map(|i| Link {
            url: format!("http://e/{}", i),
            text: "l".to_string(),
            is_external: false,
            status_code: None,
            redirected_url: None,
        })
        .collect();
    let issues = issues_of(rich);
    assert!(!has_issue(&issues, IssueType::ThinContent, IssueSeverity::Warning));
}

#[test]
fn test_only_html_pages_are_analyzed() {
    let mut html = html_page(None, None, &[]);
    html.content_type = Some("TEXT/HTML".to_string());
    let mut json = html_page(None, None, &[]);
    json.content_type = Some("application/json".to_string());
    let mut none = html_page(None, None, &[]);
    none.content_type = None;
    let mut pages = PageMap {
        entries: vec![
            ("http://e/h".to_string(), html),
            ("http://e/j".to_string(), json),
            ("http://e/n".to_string(), none),
        ],
    };
    SeoAnalyzer::analyze_pages(&mut pages);
    assert!(!pages.get("http://e/h").unwrap().issues.is_empty());
    assert!(pages.get("http://e/j").unwrap().issues.is_empty());
    assert!(pages.get("http://e/n").unwrap().issues.is_empty());
}
