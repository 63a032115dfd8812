//! URL handling for the crawler: parsed components, normalization for
//! deduplication, internal/external classification, and the per-domain key
//! under which robots rules are cached.

use vstd::prelude::*;
use vstd::string::StrSliceExecFns;
use vstd::string::StringExecFns;

use crate::text::{dec_seq, str_eq, string_eq, u64_to_string};

verus! {

/// The components of an absolute URL that the crawl logic reads, held as
/// plain values.
#[derive(Debug)]
pub struct UrlParts {
    pub scheme: String,
    pub host: Option<String>,
    pub port: Option<u16>,
    pub path: String,
}

#[verifier::ext_equal]
pub ghost struct UrlPartsModel {
    pub scheme: Seq<char>,
    pub host: Option<Seq<char>>,
    pub port: Option<u16>,
    pub path: Seq<char>,
}

impl View for UrlParts {
    type V = UrlPartsModel;

    open spec fn view(&self) -> UrlPartsModel {
        UrlPartsModel {
            scheme: self.scheme@,
            host: crate::models::view_opt_string(self.host),
            port: self.port,
            path: self.path@,
        }
    }
}

impl UrlParts {
    pub fn clone_parts(&self) -> (r: UrlParts)
        ensures
            r@ == self@,
    {
        UrlParts {
            scheme: self.scheme.clone(),
            host: crate::models::clone_opt_string(&self.host),
            port: self.port,
            path: self.path.clone(),
        }
    }
}

/// Relies on `url::Url::parse` and the component accessors `scheme`,
/// `host_str`, `port` and `path`: the parsed components of `s` as plain
/// strings, or `None` when `s` is not an absolute URL. The components of
/// the result are read by verified code; nothing about their values is
/// assumed.
#[verifier::external_body]
pub(crate) fn parse_url(s: &str) -> (r: Option<UrlParts>) {
    match url::Url::parse(s) {
        Ok(u) => Some(
            UrlParts {
                scheme: u.scheme().to_string(),
                host: u.host_str().map(|h| h.to_string()),
                port: u.port(),
                path: u.path().to_string(),
            },
        ),
        Err(_) => None,
    }
}

/// The length of the longest prefix of `s` that holds no `#`.
pub open spec fn hash_free_prefix_len(s: Seq<char>) -> int
    decreases s.len(),
{
    if s.len() == 0 {
        0
    } else if s[0] == '#' {
        0
    } else {
        1 + hash_free_prefix_len(s.skip(1))
    }
}

pub proof fn lemma_hash_free_prefix(s: Seq<char>)
    ensures
        0 <= hash_free_prefix_len(s) <= s.len(),
        forall|j: int| 0 <= j < hash_free_prefix_len(s) ==> s[j] != '#',
        hash_free_prefix_len(s) < s.len() ==> s[hash_free_prefix_len(s)] == '#',
    decreases s.len(),
{
    if s.len() == 0 {
    } else if s[0] == '#' {
    } else {
        lemma_hash_free_prefix(s.skip(1));
        assert forall|j: int| 0 <= j < hash_free_prefix_len(s) implies s[j] != '#' by {
            if j > 0 {
                assert(s.skip(1)[j - 1] != '#');
            }
        }
    }
}

/// What a URL is normalized to: unchanged when fragments are kept,
/// otherwise everything from the first `#` on is dropped.
pub open spec fn spec_normalize(s: Seq<char>, keep_fragments: bool) -> Seq<char> {
    if keep_fragments {
        s
    } else {
        s.subrange(0, hash_free_prefix_len(s))
    }
}

/// Normalizes a URL for deduplication purposes.
pub fn normalize_url(url: &str, keep_fragments: bool) -> (r: String)
    ensures
        r@ == spec_normalize(url@, keep_fragments),
{
    proof {
        lemma_hash_free_prefix(url@);
    }
    if keep_fragments {
        url.to_owned()
    } else {
        match crate::text::find_char(url, '#') {
            Some(i) => {
                proof {
                    assert(hash_free_prefix_len(url@) == i);
                }
                let prefix = url.substring_char(0, i);
                prefix.to_owned()
            },
            None => {
                proof {
                    assert(hash_free_prefix_len(url@) == url@.len());
                    assert(url@.subrange(0, url@.len() as int) =~= url@);
                }
                url.to_owned()
            },
        }
    }
}

/// Normalization is idempotent: stripping the fragment from an already
/// stripped URL changes nothing.
pub proof fn lemma_normalize_idempotent(s: Seq<char>)
    ensures
        spec_normalize(spec_normalize(s, false), false) == spec_normalize(s, false),
{
    lemma_hash_free_prefix(s);
    let t = spec_normalize(s, false);
    lemma_hash_free_prefix(t);
    assert(hash_free_prefix_len(t) == t.len());
    assert(t.subrange(0, t.len() as int) =~= t);
}

/// A candidate is external exactly when its host or its port differs from
/// the crawl origin's.
pub open spec fn spec_is_external(candidate: UrlPartsModel, base: UrlPartsModel) -> bool {
    candidate.host != base.host || candidate.port != base.port
}

/// Classifies a URL as external relative to the crawl origin by comparing
/// host and port.
pub fn is_external_url(candidate: &UrlParts, base: &UrlParts) -> (r: bool)
    ensures
        r == spec_is_external(candidate@, base@),
{
    let hosts_equal: bool = match (&candidate.host, &base.host) {
        (None, None) => true,
        (Some(a), Some(b)) => string_eq(a, b),
        _ => false,
    };
    let ports_equal: bool = match (candidate.port, base.port) {
        (None, None) => true,
        (Some(a), Some(b)) => a == b,
        _ => false,
    };
    !hosts_equal || !ports_equal
}

/// The key under which a domain's robots rules are cached:
/// `scheme://host` with an explicit `:port` when one is present.
pub open spec fn spec_domain_key(p: UrlPartsModel) -> Seq<char> {
    let host = match p.host {
        Some(h) => h,
        None => Seq::<char>::empty(),
    };
    let port = match p.port {
        Some(pt) => ":"@ + dec_seq(pt as nat),
        None => Seq::<char>::empty(),
    };
    p.scheme + "://"@ + host + port
}

pub fn domain_key(p: &UrlParts) -> (r: String)
    ensures
        r@ == spec_domain_key(p@),
{
    let mut s = String::new();
    s.append(p.scheme.as_str());
    s.append("://");
    match &p.host {
        Some(h) => {
            s.append(h.as_str());
        },
        None => {},
    }
    match p.port {
        Some(pt) => {
            s.append(":");
            let digits = u64_to_string(pt as u64);
            s.append(digits.as_str());
        },
        None => {},
    }
    proof {
        assert(s@ =~= spec_domain_key(p@));
    }
    s
}

/// Where a domain's crawl policy is declared.
pub open spec fn spec_robots_url(p: UrlPartsModel) -> Seq<char> {
    spec_domain_key(p) + "/robots.txt"@
}

pub fn robots_url(p: &UrlParts) -> (r: String)
    ensures
        r@ == spec_robots_url(p@),
{
    let mut s = domain_key(p);
    s.append("/robots.txt");
    s
}

/// The only schemes the crawler may be seeded with.
pub open spec fn spec_is_http_scheme(scheme: Seq<char>) -> bool {
    scheme == "http"@ || scheme == "https"@
}

pub fn is_http_scheme(p: &UrlParts) -> (r: bool)
    ensures
        r == spec_is_http_scheme(p@.scheme),
{
    str_eq(p.scheme.as_str(), "http") || str_eq(p.scheme.as_str(), "https")
}

/// True when the text of `url` begins with `http://` or `https://`.
pub open spec fn spec_has_http_prefix(url: Seq<char>) -> bool {
    (url.len() >= 7 && url.subrange(0, 7) == "http://"@) || (url.len() >= 8 && url.subrange(0, 8)
        == "https://"@)
}

pub fn has_http_prefix(url: &str) -> (r: bool)
    ensures
        r == spec_has_http_prefix(url@),
{
    proof {
        reveal_strlit("http://");
        reveal_strlit("https://");
    }
    crate::text::starts_with(url, "http://") || crate::text::starts_with(url, "https://")
}

} // verus!
