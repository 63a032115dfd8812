use scoutly::config::{Cli, Config, ConfigFormat};

#[test]
fn test_config_format_from_path() {
    assert_eq!(ConfigFormat::from_path("config.json"), Some(ConfigFormat::Json));
    assert_eq!(ConfigFormat::from_path("config.toml"), Some(ConfigFormat::Toml));
    assert_eq!(ConfigFormat::from_path("config.yaml"), Some(ConfigFormat::Yaml));
    assert_eq!(ConfigFormat::from_path("config.yml"), Some(ConfigFormat::Yaml));
    assert_eq!(ConfigFormat::from_path("config.txt"), None);
}

#[test]
fn test_config_format_edge_cases() {
    assert_eq!(ConfigFormat::from_path("no_extension"), None);
    assert_eq!(ConfigFormat::from_path(".json"), None);
    assert_eq!(ConfigFormat::from_path("dir/.json"), None);
    assert_eq!(ConfigFormat::from_path("dir/config.JSON"), Some(ConfigFormat::Json));
    assert_eq!(ConfigFormat::from_path("a.b/config"), None);
}

#[test]
fn test_config_format_extensions() {
    assert_eq!(ConfigFormat::Json.extensions(), vec!["json"]);
    assert_eq!(ConfigFormat::Toml.extensions(), vec!["toml"]);
    assert_eq!(ConfigFormat::Yaml.extensions(), vec!["yaml", "yml"]);
}

#[test]
fn test_default_paths_order() {
    let without_home = Config::default_paths(None);
    assert_eq!(
        without_home,
        vec!["scoutly.json", "scoutly.toml", "scoutly.yaml", "scoutly.yml"]
    );
    let with_home = Config::default_paths(Some("/home/u/.config"));
    assert_eq!(with_home.len(), 8);
    assert_eq!(with_home[0], "scoutly.json");
    assert_eq!(with_home[4], "/home/u/.config/scoutly/config.json");
    assert_eq!(with_home[7], "/home/u/.config/scoutly/config.yml");
}

fn default_cli() -> Cli {
    Cli {
        url: "https://example.com".to_string(),
        depth: 5,
        max_pages: 200,
        output: "text".to_string(),
        save: None,
        external: false,
        verbose: false,
        ignore_redirects: false,
        keep_fragments: false,
        rate_limit: None,
        concurrency: 5,
        respect_robots_txt: true,
        config: None,
    }
}

#[test]
fn test_merge_with_cli_defaults() {
    // With the command line at its defaults, the file's values win.
    let config = Config {
        depth: Some(15),
        max_pages: Some(300),
        output: Some("json".to_string()),
        concurrency: Some(10),
        ..Default::default()
    };

    let cli = default_cli();

    let merged = config.merge_with_cli(&cli);
    assert_eq!(merged.url, "https://example.com");
    assert_eq!(merged.depth, 15); // from config
    assert_eq!(merged.max_pages, 300); // from config
    assert_eq!(merged.output, "json"); // from config
    assert_eq!(merged.concurrency, 10); // from config
}

#[test]
fn test_merge_with_cli_overrides() {
    // A command-line value away from its default wins over the file.
    let config = Config {
        depth: Some(15),
        max_pages: Some(300),
        output: Some("json".to_string()),
        concurrency: Some(10),
        external: Some(true),
        ..Default::default()
    };

    let cli = Cli {
        url: "https://example.com".to_string(),
        depth: 20,
        max_pages: 400,
        output: "xml".to_string(),
        save: Some("report.txt".to_string()),
        external: true,
        verbose: true,
        ignore_redirects: true,
        keep_fragments: false,
        rate_limit: Some(2),
        concurrency: 15,
        respect_robots_txt: false,
        config: None,
    };

    let merged = config.merge_with_cli(&cli);
    assert_eq!(merged.url, "https://example.com");
    assert_eq!(merged.depth, 20); // CLI override
    assert_eq!(merged.max_pages, 400); // CLI override
    assert_eq!(merged.output, "xml"); // CLI override
    assert_eq!(merged.concurrency, 15); // CLI override
    assert_eq!(merged.save, Some("report.txt".to_string())); // CLI value
    assert!(merged.verbose); // CLI value
    assert!(merged.ignore_redirects); // CLI value
    assert_eq!(merged.rate_limit, Some(2)); // CLI value
    assert!(!merged.respect_robots_txt); // CLI override
}

#[test]
fn test_default_paths_exists() {
    let paths = Config::default_paths(None);
    assert!(!paths.is_empty());

    // Check that current directory paths are included
    assert!(paths.iter().any(|p| p.contains("scoutly.json")));
    assert!(paths.iter().any(|p| p.contains("scoutly.toml")));
    assert!(paths.iter().any(|p| p.contains("scoutly.yaml")));
}

#[test]
fn test_merge_empty_config_keeps_cli() {
    let merged = Config::default().merge_with_cli(&default_cli());
    assert_eq!(merged.url, "https://example.com");
    assert_eq!(merged.depth, 5);
    assert_eq!(merged.max_pages, 200);
    assert_eq!(merged.output, "text");
    assert_eq!(merged.save, None);
    assert!(!merged.external);
    assert!(merged.respect_robots_txt);
}
