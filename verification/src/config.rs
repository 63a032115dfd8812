//! Configuration: the command-line argument record, the optional
//! configuration-file record, the file-format detection by extension, and
//! the merge that lets command-line arguments override file values.

use vstd::prelude::*;
use vstd::string::StrSliceExecFns;
use vstd::string::StringExecFns;

use crate::models::view_opt_string;
use crate::text::{eq_ignore_case, lower_seq};

verus! {

/// The command-line arguments the crawler is driven by. The rate limit is
/// a whole number of requests per second (the ceiling of the configured
/// rate); `None` means unthrottled.
#[derive(Debug)]
pub struct Cli {
    pub url: String,
    pub depth: usize,
    pub max_pages: usize,
    pub output: String,
    pub save: Option<String>,
    pub external: bool,
    pub verbose: bool,
    pub ignore_redirects: bool,
    pub keep_fragments: bool,
    pub rate_limit: Option<u32>,
    pub concurrency: usize,
    pub respect_robots_txt: bool,
    pub config: Option<String>,
}

/// A configuration file's values; every field optional so that partial
/// files merge with the defaults.
#[derive(Debug)]
pub struct Config {
    pub url: Option<String>,
    pub depth: Option<usize>,
    pub max_pages: Option<usize>,
    pub output: Option<String>,
    pub save: Option<String>,
    pub external: Option<bool>,
    pub verbose: Option<bool>,
    pub ignore_redirects: Option<bool>,
    pub keep_fragments: Option<bool>,
    pub rate_limit: Option<u32>,
    pub concurrency: Option<usize>,
    pub respect_robots_txt: Option<bool>,
}

impl Default for Config {
    /// The empty configuration: nothing set.
    fn default() -> (r: Self)
        ensures
            r.url is None,
            r.depth is None,
            r.max_pages is None,
            r.output is None,
            r.save is None,
            r.external is None,
            r.verbose is None,
            r.ignore_redirects is None,
            r.keep_fragments is None,
            r.rate_limit is None,
            r.concurrency is None,
            r.respect_robots_txt is None,
    {
        Config {
            url: None,
            depth: None,
            max_pages: None,
            output: None,
            save: None,
            external: None,
            verbose: None,
            ignore_redirects: None,
            keep_fragments: None,
            rate_limit: None,
            concurrency: None,
            respect_robots_txt: None,
        }
    }
}

/// A configuration file format, detected from the file extension.
#[derive(Debug, Clone, Copy, PartialEq, Eq, Structural)]
pub enum ConfigFormat {
    Json,
    Toml,
    Yaml,
}

/// The position of the last occurrence of `c` in `s`, or `-1`.
pub open spec fn spec_last_index_of(s: Seq<char>, c: char) -> int
    decreases s.len(),
{
    if s.len() == 0 {
        -1
    } else if s.last() == c {
        s.len() - 1
    } else {
        spec_last_index_of(s.drop_last(), c)
    }
}

pub proof fn lemma_last_index_of(s: Seq<char>, c: char)
    ensures
        -1 <= spec_last_index_of(s, c) < s.len(),
        forall|j: int| spec_last_index_of(s, c) < j < s.len() ==> s[j] != c,
        spec_last_index_of(s, c) >= 0 ==> s[spec_last_index_of(s, c)] == c,
    decreases s.len(),
{
    if s.len() == 0 {
    } else if s.last() == c {
    } else {
        lemma_last_index_of(s.drop_last(), c);
        assert forall|j: int| spec_last_index_of(s, c) < j < s.len() implies s[j] != c by {
            if j < s.len() - 1 {
                assert(s.drop_last()[j] != c);
            }
        }
    }
}

pub proof fn lemma_last_index_of_unique(s: Seq<char>, c: char, k: int)
    requires
        -1 <= k < s.len(),
        forall|j: int| k < j < s.len() ==> s[j] != c,
        k >= 0 ==> s[k] == c,
    ensures
        spec_last_index_of(s, c) == k,
    decreases s.len(),
{
    if s.len() == 0 {
    } else if k == s.len() - 1 {
    } else {
        assert(s.last() != c);
        assert forall|j: int| k < j < s.drop_last().len() implies s.drop_last()[j] != c by {
            assert(s.drop_last()[j] == s[j]);
        }
        lemma_last_index_of_unique(s.drop_last(), c, k);
    }
}

/// The extension of a path: what follows the last dot of its final
/// component, provided something precedes that dot.
pub open spec fn spec_extension(path: Seq<char>) -> Option<Seq<char>> {
    let d = spec_last_index_of(path, '.');
    let sl = spec_last_index_of(path, '/');
    if d > sl + 1 {
        Some(path.subrange(d + 1, path.len() as int))
    } else {
        None
    }
}

/// The format a path's extension names, compared case-insensitively:
/// `json`, `toml`, and `yaml` or `yml`.
pub open spec fn spec_config_format(path: Seq<char>) -> Option<ConfigFormat> {
    match spec_extension(path) {
        None => None,
        Some(e) => if lower_seq(e) == lower_seq("json"@) {
            Some(ConfigFormat::Json)
        } else if lower_seq(e) == lower_seq("toml"@) {
            Some(ConfigFormat::Toml)
        } else if lower_seq(e) == lower_seq("yaml"@) || lower_seq(e) == lower_seq("yml"@) {
            Some(ConfigFormat::Yaml)
        } else {
            None
        },
    }
}

/// The position of the last occurrence of `c`, if any.
fn rfind_char(s: &str, c: char) -> (r: Option<usize>)
    ensures
        match r {
            Some(i) => i == spec_last_index_of(s@, c) && 0 <= i < s@.len(),
            None => spec_last_index_of(s@, c) == -1,
        },
{
    let n = s.unicode_len();
    let mut i: usize = n;
    while i > 0
        invariant
            0 <= i <= n,
            n == s@.len(),
            forall|j: int| i <= j < n ==> s@[j] != c,
        decreases i,
    {
        if s.get_char(i - 1) == c {
            proof {
                lemma_last_index_of_unique(s@, c, i - 1);
            }
            return Some(i - 1);
        }
        i = i - 1;
    }
    proof {
        lemma_last_index_of_unique(s@, c, -1);
    }
    None
}

impl ConfigFormat {
    /// Detects the format from the path's file extension,
    /// case-insensitively.
    pub fn from_path(path: &str) -> (r: Option<ConfigFormat>)
        ensures
            r == spec_config_format(path@),
    {
        let n = path.unicode_len();
        proof {
            lemma_last_index_of(path@, '.');
            lemma_last_index_of(path@, '/');
        }
        let d: usize = match rfind_char(path, '.') {
            None => {
                return None;
            },
            Some(d) => d,
        };
        let keep: bool = match rfind_char(path, '/') {
            None => d > 0,
            Some(sl) => d > sl + 1,
        };
        if !keep {
            return None;
        }
        let ext = path.substring_char(d + 1, n);
        proof {
            assert(ext@ == path@.subrange(spec_last_index_of(path@, '.') + 1, path@.len() as int));
        }
        if eq_ignore_case(ext, "json") {
            Some(ConfigFormat::Json)
        } else if eq_ignore_case(ext, "toml") {
            Some(ConfigFormat::Toml)
        } else if eq_ignore_case(ext, "yaml") || eq_ignore_case(ext, "yml") {
            Some(ConfigFormat::Yaml)
        } else {
            None
        }
    }

    /// The file extensions each format is recognized by.
    pub fn extensions(&self) -> (r: Vec<&'static str>)
        ensures
            match self {
                ConfigFormat::Json => r@.len() == 1 && r@[0]@ == "json"@,
                ConfigFormat::Toml => r@.len() == 1 && r@[0]@ == "toml"@,
                ConfigFormat::Yaml => r@.len() == 2 && r@[0]@ == "yaml"@ && r@[1]@ == "yml"@,
            },
    {
        match self {
            ConfigFormat::Json => vec!["json"],
            ConfigFormat::Toml => vec!["toml"],
            ConfigFormat::Yaml => vec!["yaml", "yml"],
        }
    }
}

impl Config {
    /// The configuration file names that are looked for, in priority
    /// order: `scoutly.<ext>` in the working directory first, then
    /// `scoutly/config.<ext>` under the user's configuration directory
    /// when one is known.
    pub fn default_paths(config_home: Option<&str>) -> (r: Vec<String>)
        ensures
            r@.len() == (if config_home is Some {
                8int
            } else {
                4int
            }),
            r@[0]@ == "scoutly.json"@,
            r@[1]@ == "scoutly.toml"@,
            r@[2]@ == "scoutly.yaml"@,
            r@[3]@ == "scoutly.yml"@,
            match config_home {
                Some(h) => r@[4]@ == h@ + "/scoutly/config.json"@ && r@[5]@ == h@
                    + "/scoutly/config.toml"@ && r@[6]@ == h@ + "/scoutly/config.yaml"@ && r@[7]@
                    == h@ + "/scoutly/config.yml"@,
                None => true,
            },
    {
        let mut r: Vec<String> = Vec::new();
        r.push("scoutly.json".to_owned());
        r.push("scoutly.toml".to_owned());
        r.push("scoutly.yaml".to_owned());
        r.push("scoutly.yml".to_owned());
        match config_home {
            Some(h) => {
                let mut a = String::new();
                a.append(h);
                a.append("/scoutly/config.json");
                r.push(a);
                let mut b = String::new();
                b.append(h);
                b.append("/scoutly/config.toml");
                r.push(b);
                let mut c = String::new();
                c.append(h);
                c.append("/scoutly/config.yaml");
                r.push(c);
                let mut d = String::new();
                d.append(h);
                d.append("/scoutly/config.yml");
                r.push(d);
            },
            None => {},
        }
        r
    }

    /// Merges this configuration with command-line arguments; an argument
    /// that differs from its built-in default wins over the file value,
    /// and flags win whenever they are set.
    pub fn merge_with_cli(&self, cli: &Cli) -> (r: Cli)
        ensures
            r.url@ == cli.url@,
            r.depth == (if cli.depth != 5 {
                cli.depth
            } else {
                match self.depth {
                    Some(d) => d,
                    None => cli.depth,
                }
            }),
            r.max_pages == (if cli.max_pages != 200 {
                cli.max_pages
            } else {
                match self.max_pages {
                    Some(p) => p,
                    None => cli.max_pages,
                }
            }),
            r.output@ == (if cli.output@ != "text"@ {
                cli.output@
            } else {
                match view_opt_string(self.output) {
                    Some(o) => o,
                    None => cli.output@,
                }
            }),
            view_opt_string(r.save) == (match view_opt_string(cli.save) {
                Some(s) => Some(s),
                None => view_opt_string(self.save),
            }),
            r.external == (if cli.external {
                true
            } else {
                match self.external {
                    Some(e) => e,
                    None => false,
                }
            }),
            r.verbose == (if cli.verbose {
                true
            } else {
                match self.verbose {
                    Some(v) => v,
                    None => false,
                }
            }),
            r.ignore_redirects == (if cli.ignore_redirects {
                true
            } else {
                match self.ignore_redirects {
                    Some(v) => v,
                    None => false,
                }
            }),
            r.keep_fragments == (if cli.keep_fragments {
                true
            } else {
                match self.keep_fragments {
                    Some(v) => v,
                    None => false,
                }
            }),
            r.rate_limit == (match cli.rate_limit {
                Some(v) => Some(v),
                None => self.rate_limit,
            }),
            r.concurrency == (if cli.concurrency != 5 {
                cli.concurrency
            } else {
                match self.concurrency {
                    Some(c) => c,
                    None => cli.concurrency,
                }
            }),
            r.respect_robots_txt == (if !cli.respect_robots_txt {
                false
            } else {
                match self.respect_robots_txt {
                    Some(v) => v,
                    None => true,
                }
            }),
            view_opt_string(r.config) == view_opt_string(cli.config),
    {
        let output: String = if !crate::text::str_eq(cli.output.as_str(), "text") {
            cli.output.clone()
        } else {
            match &self.output {
                Some(o) => o.clone(),
                None => cli.output.clone(),
            }
        };
        Cli {
            url: cli.url.clone(),
            depth: if cli.depth != 5 {
                cli.depth
            } else {
                match self.depth {
                    Some(d) => d,
                    None => cli.depth,
                }
            },
            max_pages: if cli.max_pages != 200 {
                cli.max_pages
            } else {
                match self.max_pages {
                    Some(p) => p,
                    None => cli.max_pages,
                }
            },
            output,
            save: match &cli.save {
                Some(s) => Some(s.clone()),
                None => crate::models::clone_opt_string(&self.save),
            },
            external: if cli.external {
                true
            } else {
                match self.external {
                    Some(e) => e,
                    None => false,
                }
            },
            verbose: if cli.verbose {
                true
            } else {
                match self.verbose {
                    Some(v) => v,
                    None => false,
                }
            },
            ignore_redirects: if cli.ignore_redirects {
                true
            } else {
                match self.ignore_redirects {
                    Some(v) => v,
                    None => false,
                }
            },
            keep_fragments: if cli.keep_fragments {
                true
            } else {
                match self.keep_fragments {
                    Some(v) => v,
                    None => false,
                }
            },
            rate_limit: match cli.rate_limit {
                Some(v) => Some(v),
                None => self.rate_limit,
            },
            concurrency: if cli.concurrency != 5 {
                cli.concurrency
            } else {
                match self.concurrency {
                    Some(c) => c,
                    None => cli.concurrency,
                }
            },
            respect_robots_txt: if !cli.respect_robots_txt {
                false
            } else {
                match self.respect_robots_txt {
                    Some(v) => v,
                    None => true,
                }
            },
            config: crate::models::clone_opt_string(&cli.config),
        }
    }
}

} // verus!
