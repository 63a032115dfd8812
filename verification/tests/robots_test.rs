use scoutly::robots::{RobotsTxt, Rule};
use scoutly::urls::UrlParts;

#[test]
fn test_path_matches_exact() {
    let robots = RobotsTxt::new();
    assert!(robots.path_matches("/admin", "/admin"));
    assert!(!robots.path_matches("/admin", "/user"));
}

#[test]
fn test_path_matches_prefix() {
    let robots = RobotsTxt::new();
    assert!(robots.path_matches("/admin", "/admin/page"));
    assert!(robots.path_matches("/admin", "/admin"));
    assert!(!robots.path_matches("/admin", "/user"));
}

#[test]
fn test_path_matches_wildcard() {
    let robots = RobotsTxt::new();
    assert!(robots.path_matches("/admin/*", "/admin/page"));
    assert!(robots.path_matches("/admin/*", "/admin/"));
    assert!(robots.path_matches("/*.php", "/index.php"));
    assert!(robots.path_matches("/*.php", "/admin/index.php"));
}

#[test]
fn test_path_matches_end_marker() {
    let robots = RobotsTxt::new();
    assert!(robots.path_matches("/admin$", "/admin"));
    assert!(!robots.path_matches("/admin$", "/admin/"));
    assert!(!robots.path_matches("/admin$", "/admin/page"));
}

#[test]
fn test_parse_robots_txt() {
    let content = "\nUser-agent: *\nDisallow: /admin\nDisallow: /private/\nAllow: /public/\n\nUser-agent: googlebot\nDisallow: /secret\n";

    let mut robots = RobotsTxt::new();
    robots.parse("http://example.com", content);

    let wildcard_rules = robots.rules_for("http://example.com:*").unwrap();
    assert_eq!(wildcard_rules.len(), 3);

    let google_rules = robots.rules_for("http://example.com:googlebot").unwrap();
    assert_eq!(google_rules.len(), 1);
}

#[test]
fn test_check_rules() {
    let rules = vec![
        Rule {
            pattern: "/admin".to_string(),
            is_allow: false,
        },
        Rule {
            pattern: "/admin/public".to_string(),
            is_allow: true,
        },
    ];

    let robots = RobotsTxt::new();

    assert!(!robots.check_rules(&rules, "/admin"));
    assert!(robots.check_rules(&rules, "/admin/public"));
    assert!(!robots.check_rules(&rules, "/admin/private"));
    assert!(robots.check_rules(&rules, "/public"));
}

fn parts(scheme: &str, host: &str, port: Option<u16>, path: &str) -> UrlParts {
    UrlParts {
        scheme: scheme.to_string(),
        host: Some(host.to_string()),
        port,
        path: path.to_string(),
    }
}

#[test]
fn test_is_allowed_precedence() {
    // A longer Allow overrides a shorter Disallow; unrelated paths are allowed.
    let mut robots = RobotsTxt::new();
    robots.parse(
        "http://example.com",
        "User-agent: *\nDisallow: /admin\nAllow: /admin/public\n",
    );
    let agent = "scoutly";
    assert!(!robots.is_allowed(&parts("http", "example.com", None, "/admin"), agent));
    assert!(!robots.is_allowed(&parts("http", "example.com", None, "/admin/private"), agent));
    assert!(robots.is_allowed(&parts("http", "example.com", None, "/admin/public"), agent));
    assert!(robots.is_allowed(&parts("http", "example.com", None, "/other"), agent));
}

#[test]
fn test_is_allowed_specific_agent_wins() {
    let mut robots = RobotsTxt::new();
    robots.parse(
        "http://example.com",
        "User-agent: Scoutly\nDisallow: /private\n\nUser-agent: *\nDisallow: /admin\n",
    );
    // The crawler's own (case-insensitive) group applies, not the wildcard.
    assert!(!robots.is_allowed(&parts("http", "example.com", None, "/private"), "scoutly"));
    assert!(robots.is_allowed(&parts("http", "example.com", None, "/admin"), "scoutly"));
    // Another agent falls back to the wildcard group.
    assert!(!robots.is_allowed(&parts("http", "example.com", None, "/admin"), "otherbot"));
}

#[test]
fn test_is_allowed_no_rules() {
    let robots = RobotsTxt::new();
    assert!(robots.is_allowed(&parts("http", "example.com", None, "/anything"), "scoutly"));
}

#[test]
fn test_record_response_failure_allows_all() {
    // A failed robots request leaves the domain unrestricted.
    let mut robots = RobotsTxt::new();
    let base = parts("http", "example.com", None, "/");
    robots.record_response(&base, None);
    assert!(robots.is_fetched(&base));
    assert!(robots.is_allowed(&parts("http", "example.com", None, "/admin"), "scoutly"));
}

#[test]
fn test_record_response_caches_first_fetch() {
    // Once a domain is recorded, a second response for it is ignored.
    let mut robots = RobotsTxt::new();
    let base = parts("http", "example.com", None, "/");
    robots.record_response(&base, Some("User-agent: *\nDisallow: /admin\n"));
    robots.record_response(&base, Some("User-agent: *\nDisallow: /other\n"));
    let agent = "scoutly";
    assert!(!robots.is_allowed(&parts("http", "example.com", None, "/admin"), agent));
    assert!(robots.is_allowed(&parts("http", "example.com", None, "/other"), agent));
}

#[test]
fn test_parse_skips_comments_and_other_fields() {
    let mut robots = RobotsTxt::new();
    robots.parse(
        "http://example.com",
        "# a comment\nUser-agent: *\nCrawl-delay: 10\nSitemap: http://example.com/sitemap.xml\nDisallow: /admin\nDisallow:\n",
    );
    let rules = robots.rules_for("http://example.com:*").unwrap();
    // The comment, the unknown fields and the empty Disallow are ignored.
    assert_eq!(rules.len(), 1);
    assert_eq!(rules[0].pattern, "/admin");
    assert!(!rules[0].is_allow);
}

#[test]
fn test_parse_shared_rule_list_for_consecutive_agents() {
    let mut robots = RobotsTxt::new();
    robots.parse(
        "http://example.com",
        "User-agent: alpha\nUser-agent: beta\nDisallow: /x\n",
    );
    assert_eq!(robots.rules_for("http://example.com:alpha").unwrap().len(), 1);
    assert_eq!(robots.rules_for("http://example.com:beta").unwrap().len(), 1);
}

#[test]
fn test_domain_key_includes_port() {
    let p = parts("http", "example.com", Some(8080), "/");
    let url = scoutly::urls::robots_url(&p);
    assert_eq!(url, "http://example.com:8080/robots.txt");
}

#[test]
fn test_robots_url_without_port() {
    let p = parts("https", "example.com", None, "/a/b");
    assert_eq!(scoutly::urls::robots_url(&p), "https://example.com/robots.txt");
}
