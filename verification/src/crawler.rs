//! The frontier scheduler: breadth-first traversal under depth, page-count
//! and concurrency bounds, with deduplication by normalized URL and
//! robots-policy checks. The scheduler owns all crawl state; fetching is
//! the caller's part: `start_batch` hands out a batch of URLs, and
//! `record_results` takes what came back.

use vstd::prelude::*;

use crate::models::{views_of, OpenGraphModel, OpenGraphTags, PageInfo, PageMap, PageModel};
use crate::models::{Image, ImageModel, Link, LinkModel};
use crate::robots::{spec_is_allowed, RobotsTxt, RuleGroupModel};
use crate::urls::{
    is_external_url, normalize_url, parse_url, spec_is_external, spec_is_http_scheme,
    spec_normalize, UrlParts, UrlPartsModel,
};

verus! {

/// Tuning of a crawl run. Requests per second is the ceiling of the
/// configured rate; `None` means unthrottled.
#[derive(Debug, Clone, Copy)]
pub struct CrawlerConfig {
    pub max_depth: usize,
    pub max_pages: usize,
    pub follow_external: bool,
    pub keep_fragments: bool,
    pub requests_per_second: Option<u32>,
    pub concurrent_requests: usize,
    pub respect_robots_txt: bool,
}

/// Why constructing a crawler failed.
#[derive(Debug, Clone, Copy, PartialEq, Eq, Structural)]
pub enum CrawlError {
    InvalidUrl,
    InvalidScheme,
}

impl CrawlError {
    pub fn message(&self) -> (r: String)
        ensures
            self is InvalidUrl ==> r@ == "Invalid URL"@,
            self is InvalidScheme ==> r@
                == "Invalid URL scheme: only http and https are supported"@,
    {
        match self {
            CrawlError::InvalidUrl => "Invalid URL".to_owned(),
            CrawlError::InvalidScheme => "Invalid URL scheme: only http and https are supported".to_owned(),
        }
    }
}

/// A queued (url, depth) pair, with the URL's parsed components and
/// whether the link that discovered it was classified external.
#[derive(Debug)]
pub struct FrontierEntry {
    pub url: String,
    pub parts: UrlParts,
    pub depth: usize,
    pub via_external: bool,
}

#[verifier::ext_equal]
pub ghost struct FrontierEntryModel {
    pub url: Seq<char>,
    pub parts: UrlPartsModel,
    pub depth: nat,
    pub via_external: bool,
}

impl View for FrontierEntry {
    type V = FrontierEntryModel;

    open spec fn view(&self) -> FrontierEntryModel {
        FrontierEntryModel {
            url: self.url@,
            parts: self.parts@,
            depth: self.depth as nat,
            via_external: self.via_external,
        }
    }
}

/// An entry admitted to the current batch: dequeued, marked visited, and
/// awaiting its fetch result.
#[derive(Debug)]
pub struct BatchEntry {
    pub url: String,
    pub norm: String,
    pub depth: usize,
    pub via_external: bool,
}

#[verifier::ext_equal]
pub ghost struct BatchEntryModel {
    pub url: Seq<char>,
    pub norm: Seq<char>,
    pub depth: nat,
    pub via_external: bool,
}

impl View for BatchEntry {
    type V = BatchEntryModel;

    open spec fn view(&self) -> BatchEntryModel {
        BatchEntryModel {
            url: self.url@,
            norm: self.norm@,
            depth: self.depth as nat,
            via_external: self.via_external,
        }
    }
}

/// A link as the extractor hands it over: absolute URL, display text, and
/// the URL's parsed components.
#[derive(Debug)]
pub struct RawLink {
    pub url: String,
    pub text: String,
    pub parts: UrlParts,
}

#[verifier::ext_equal]
pub ghost struct RawLinkModel {
    pub url: Seq<char>,
    pub text: Seq<char>,
    pub parts: UrlPartsModel,
}

impl View for RawLink {
    type V = RawLinkModel;

    open spec fn view(&self) -> RawLinkModel {
        RawLinkModel { url: self.url@, text: self.text@, parts: self.parts@ }
    }
}

/// What fetching one page produced: the extracted document on success,
/// nothing on a transport failure.
#[derive(Debug)]
pub enum PageFetch {
    Success {
        status_code: u16,
        content_type: Option<String>,
        title: Option<String>,
        meta_description: Option<String>,
        h1_tags: Vec<String>,
        links: Vec<RawLink>,
        images: Vec<Image>,
        open_graph: OpenGraphTags,
    },
    Failure,
}

#[verifier::ext_equal]
pub ghost struct FetchModel {
    pub status_code: u16,
    pub content_type: Option<Seq<char>>,
    pub title: Option<Seq<char>>,
    pub meta_description: Option<Seq<char>>,
    pub h1_tags: Seq<Seq<char>>,
    pub links: Seq<RawLinkModel>,
    pub images: Seq<ImageModel>,
    pub open_graph: OpenGraphModel,
}

impl View for PageFetch {
    type V = Option<FetchModel>;

    open spec fn view(&self) -> Option<FetchModel> {
        match self {
            PageFetch::Success {
                status_code,
                content_type,
                title,
                meta_description,
                h1_tags,
                links,
                images,
                open_graph,
            } => Some(
                FetchModel {
                    status_code: *status_code,
                    content_type: crate::models::view_opt_string(*content_type),
                    title: crate::models::view_opt_string(*title),
                    meta_description: crate::models::view_opt_string(*meta_description),
                    h1_tags: h1_tags.deep_view(),
                    links: views_of(links@),
                    images: views_of(images@),
                    open_graph: open_graph@,
                },
            ),
            PageFetch::Failure => None,
        }
    }
}

/// The whole crawl state as the contracts see it.
#[verifier::ext_equal]
pub ghost struct CrawlerModel {
    pub base_url: Seq<char>,
    pub base: UrlPartsModel,
    pub max_depth: nat,
    pub max_pages: nat,
    pub follow_external: bool,
    pub keep_fragments: bool,
    pub visited: Seq<Seq<char>>,
    pub to_visit: Seq<FrontierEntryModel>,
    pub pending: Seq<BatchEntryModel>,
    pub pages: Seq<(Seq<char>, PageModel)>,
    pub requests_per_second: Option<u32>,
    pub concurrent_requests: nat,
    pub respect_robots_txt: bool,
    pub robots: Seq<RuleGroupModel>,
    pub robots_fetched: Seq<Seq<char>>,
}

/// The breadth-first crawler.
#[derive(Debug)]
pub struct Crawler {
    pub base_url: String,
    pub base: UrlParts,
    pub max_depth: usize,
    pub max_pages: usize,
    pub follow_external: bool,
    pub keep_fragments: bool,
    pub visited: Vec<String>,
    pub to_visit: Vec<FrontierEntry>,
    pub pending: Vec<BatchEntry>,
    pub pages: PageMap,
    pub requests_per_second: Option<u32>,
    pub concurrent_requests: usize,
    pub respect_robots_txt: bool,
    pub robots_txt: RobotsTxt,
}

impl View for Crawler {
    type V = CrawlerModel;

    open spec fn view(&self) -> CrawlerModel {
        CrawlerModel {
            base_url: self.base_url@,
            base: self.base@,
            max_depth: self.max_depth as nat,
            max_pages: self.max_pages as nat,
            follow_external: self.follow_external,
            keep_fragments: self.keep_fragments,
            visited: views_of(self.visited@),
            to_visit: views_of(self.to_visit@),
            pending: views_of(self.pending@),
            pages: self.pages@,
            requests_per_second: self.requests_per_second,
            concurrent_requests: self.concurrent_requests as nat,
            respect_robots_txt: self.respect_robots_txt,
            robots: self.robots_txt.groups_view(),
            robots_fetched: self.robots_txt.fetched_view(),
        }
    }
}

/// The user-agent token the crawler identifies itself with in robots
/// lookups.
pub open spec fn spec_agent() -> Seq<char> {
    "scoutly"@
}

/// The crawl invariant. It carries, among bookkeeping, the two crawl
/// bounds: no recorded page exceeds `max_depth`, and the pages recorded
/// and in flight never exceed `max_pages`.
pub open spec fn crawler_inv(m: CrawlerModel) -> bool {
    &&& forall|i: int, j: int| 0 <= i < j < m.pages.len() ==> m.pages[i].0 != m.pages[j].0
    &&& forall|i: int|
        0 <= i < m.pages.len() ==> m.visited.contains(#[trigger] m.pages[i].0)
    &&& forall|i: int|
        0 <= i < m.pending.len() ==> m.visited.contains(#[trigger] m.pending[i].norm)
    &&& forall|i: int, j: int|
        0 <= i < j < m.pending.len() ==> m.pending[i].norm != m.pending[j].norm
    &&& forall|i: int, j: int|
        0 <= i < m.pages.len() && 0 <= j < m.pending.len() ==> m.pages[i].0 != m.pending[j].norm
    &&& m.pages.len() + m.pending.len() <= m.max_pages
    &&& m.pages.len() + m.pending.len() <= m.visited.len()
    &&& forall|i: int| 0 <= i < m.pages.len() ==> (#[trigger] m.pages[i].1).crawl_depth <= m.max_depth
    &&& forall|i: int| 0 <= i < m.pending.len() ==> (#[trigger] m.pending[i]).depth <= m.max_depth
    &&& forall|i: int| 0 <= i < m.to_visit.len() ==> (#[trigger] m.to_visit[i]).depth <= m.max_depth
    &&& !m.follow_external ==> forall|i: int|
        0 <= i < m.to_visit.len() ==> !(#[trigger] m.to_visit[i]).via_external
    &&& !m.follow_external ==> forall|i: int|
        0 <= i < m.pending.len() ==> !(#[trigger] m.pending[i]).via_external
}

/// When external links are not followed, nothing that a link classified
/// external discovered ever stands in the frontier or in flight, so no
/// external page is ever fetched.
pub proof fn lemma_no_external_fetch(m: CrawlerModel)
    requires
        crawler_inv(m),
        !m.follow_external,
    ensures
        forall|i: int| 0 <= i < m.to_visit.len() ==> !(#[trigger] m.to_visit[i]).via_external,
        forall|i: int| 0 <= i < m.pending.len() ==> !(#[trigger] m.pending[i]).via_external,
{
}

/// Depth bound: every recorded page sits at depth at most `max_depth`.
pub proof fn lemma_depth_bound(m: CrawlerModel)
    requires
        crawler_inv(m),
    ensures
        forall|i: int| 0 <= i < m.pages.len() ==> (#[trigger] m.pages[i].1).crawl_depth
            <= m.max_depth,
{
}

/// Page-count bound: the result map never holds more than `max_pages`
/// records.
pub proof fn lemma_page_count_bound(m: CrawlerModel)
    requires
        crawler_inv(m),
    ensures
        m.pages.len() <= m.max_pages,
{
}

/// The fresh crawl state: nothing visited, nothing recorded, the seed
/// queued at depth zero.
pub open spec fn spec_init(url: Seq<char>, parts: UrlPartsModel, config: CrawlerConfig) -> CrawlerModel {
    CrawlerModel {
        base_url: url,
        base: parts,
        max_depth: config.max_depth as nat,
        max_pages: config.max_pages as nat,
        follow_external: config.follow_external,
        keep_fragments: config.keep_fragments,
        visited: Seq::empty(),
        to_visit: seq![
            FrontierEntryModel { url: url, parts: parts, depth: 0, via_external: false },
        ],
        pending: Seq::empty(),
        pages: Seq::empty(),
        requests_per_second: config.requests_per_second,
        concurrent_requests: config.concurrent_requests as nat,
        respect_robots_txt: config.respect_robots_txt,
        robots: Seq::empty(),
        robots_fetched: Seq::empty(),
    }
}

/// Whether the policy engine lets the crawler fetch `parts`.
pub open spec fn spec_robots_allows(m: CrawlerModel, parts: UrlPartsModel) -> bool {
    !m.respect_robots_txt || spec_is_allowed(m.robots, parts, spec_agent())
}

/// One batch-building pass over the queue front: entries already visited
/// or too deep are dropped; a robots denial marks the URL visited without
/// fetching; building stops before the page budget would be exceeded or
/// once `concurrent_requests` entries are admitted.
pub open spec fn spec_build_batch(m: CrawlerModel) -> CrawlerModel
    decreases m.to_visit.len(),
{
    if m.to_visit.len() == 0 {
        m
    } else if m.pending.len() >= m.concurrent_requests {
        m
    } else {
        let e = m.to_visit[0];
        let rest = CrawlerModel { to_visit: m.to_visit.skip(1), ..m };
        let norm = spec_normalize(e.url, m.keep_fragments);
        if m.visited.contains(norm) || e.depth > m.max_depth {
            spec_build_batch(rest)
        } else if !spec_robots_allows(m, e.parts) {
            spec_build_batch(CrawlerModel { visited: m.visited.push(norm), ..rest })
        } else if m.visited.len() + m.pending.len() >= m.max_pages {
            m
        } else {
            spec_build_batch(
                CrawlerModel {
                    visited: m.visited.push(norm),
                    pending: m.pending.push(
                        BatchEntryModel {
                            url: e.url,
                            norm: norm,
                            depth: e.depth,
                            via_external: e.via_external,
                        },
                    ),
                    ..rest
                },
            )
        }
    }
}

/// The link record made from an extracted link: classified against the
/// crawl origin, with no probe outcome yet.
pub open spec fn spec_link_of(raw: RawLinkModel, base: UrlPartsModel) -> LinkModel {
    LinkModel {
        url: raw.url,
        text: raw.text,
        is_external: spec_is_external(raw.parts, base),
        status_code: None,
        redirected_url: None,
    }
}

pub open spec fn spec_links_of(raws: Seq<RawLinkModel>, base: UrlPartsModel) -> Seq<LinkModel> {
    Seq::new(raws.len(), |i: int| spec_link_of(raws[i], base))
}

/// Whether one extracted link joins the frontier: internal links always,
/// external ones only under `follow_external`, and never one whose
/// normalized form is already visited.
pub open spec fn spec_link_enqueued(
    raw: RawLinkModel,
    base: UrlPartsModel,
    visited: Seq<Seq<char>>,
    follow_external: bool,
    keep_fragments: bool,
) -> bool {
    let ext = spec_is_external(raw.parts, base);
    (!ext || follow_external) && !visited.contains(spec_normalize(raw.url, keep_fragments))
}

/// The frontier entries a page's links add, each at `depth + 1`.
pub open spec fn spec_enqueue_links(
    raws: Seq<RawLinkModel>,
    base: UrlPartsModel,
    visited: Seq<Seq<char>>,
    follow_external: bool,
    keep_fragments: bool,
    depth: nat,
) -> Seq<FrontierEntryModel>
    decreases raws.len(),
{
    if raws.len() == 0 {
        Seq::empty()
    } else {
        let raw = raws[0];
        let ext = spec_is_external(raw.parts, base);
        let rest = spec_enqueue_links(
            raws.skip(1),
            base,
            visited,
            follow_external,
            keep_fragments,
            depth,
        );
        if spec_link_enqueued(raw, base, visited, follow_external, keep_fragments) {
            seq![
                FrontierEntryModel {
                    url: raw.url,
                    parts: raw.parts,
                    depth: depth + 1,
                    via_external: ext,
                },
            ] + rest
        } else {
            rest
        }
    }
}

/// Appending one link on the right adds (at most) one frontier entry on
/// the right.
pub proof fn lemma_enqueue_snoc(
    raws: Seq<RawLinkModel>,
    x: RawLinkModel,
    base: UrlPartsModel,
    visited: Seq<Seq<char>>,
    follow_external: bool,
    keep_fragments: bool,
    depth: nat,
)
    ensures
        spec_enqueue_links(raws.push(x), base, visited, follow_external, keep_fragments, depth)
            == spec_enqueue_links(raws, base, visited, follow_external, keep_fragments, depth) + (
        if spec_link_enqueued(x, base, visited, follow_external, keep_fragments) {
            seq![
                FrontierEntryModel {
                    url: x.url,
                    parts: x.parts,
                    depth: depth + 1,
                    via_external: spec_is_external(x.parts, base),
                },
            ]
        } else {
            Seq::empty()
        }),
    decreases raws.len(),
{
    let whole = raws.push(x);
    if raws.len() == 0 {
        assert(whole[0] == x);
        assert(whole.skip(1) =~= Seq::<RawLinkModel>::empty());
        assert(spec_enqueue_links(
            Seq::<RawLinkModel>::empty(),
            base,
            visited,
            follow_external,
            keep_fragments,
            depth,
        ) =~= Seq::<FrontierEntryModel>::empty());
        if spec_link_enqueued(x, base, visited, follow_external, keep_fragments) {
            assert(spec_enqueue_links(whole, base, visited, follow_external, keep_fragments, depth)
                =~= Seq::<FrontierEntryModel>::empty() + seq![
                FrontierEntryModel {
                    url: x.url,
                    parts: x.parts,
                    depth: depth + 1,
                    via_external: spec_is_external(x.parts, base),
                },
            ]);
        }
    } else {
        assert(whole[0] == raws[0]);
        assert(whole.skip(1) =~= raws.skip(1).push(x));
        lemma_enqueue_snoc(raws.skip(1), x, base, visited, follow_external, keep_fragments, depth);
        if spec_link_enqueued(raws[0], base, visited, follow_external, keep_fragments) {
            let head = seq![
                FrontierEntryModel {
                    url: raws[0].url,
                    parts: raws[0].parts,
                    depth: depth + 1,
                    via_external: spec_is_external(raws[0].parts, base),
                },
            ];
            let tail1 = spec_enqueue_links(
                raws.skip(1),
                base,
                visited,
                follow_external,
                keep_fragments,
                depth,
            );
            let extra = if spec_link_enqueued(x, base, visited, follow_external, keep_fragments) {
                seq![
                    FrontierEntryModel {
                        url: x.url,
                        parts: x.parts,
                        depth: depth + 1,
                        via_external: spec_is_external(x.parts, base),
                    },
                ]
            } else {
                Seq::<FrontierEntryModel>::empty()
            };
            assert(head + (tail1 + extra) =~= (head + tail1) + extra);
        }
    }
}

/// The page record made for one batch entry from its fetch outcome: the
/// extracted document on success, a minimal record on failure.
pub open spec fn spec_page_of(e: BatchEntryModel, res: Option<FetchModel>) -> PageModel {
    match res {
        Some(f) => PageModel {
            url: e.url,
            status_code: Some(f.status_code),
            content_type: f.content_type,
            title: f.title,
            meta_description: f.meta_description,
            h1_tags: f.h1_tags,
            links: Seq::empty(),  // filled against the base below
            images: f.images,
            open_graph: f.open_graph,
            issues: Seq::empty(),
            crawl_depth: e.depth,
        },
        None => PageModel {
            url: e.url,
            status_code: None,
            content_type: None,
            title: None,
            meta_description: None,
            h1_tags: Seq::empty(),
            links: Seq::empty(),
            images: Seq::empty(),
            open_graph: OpenGraphTags::spec_empty(),
            issues: Seq::empty(),
            crawl_depth: e.depth,
        },
    }
}

/// Records one fetch outcome: the page is stored under the entry's
/// normalized URL, and on success with remaining depth its links join the
/// frontier.
pub open spec fn spec_record_one(
    m: CrawlerModel,
    e: BatchEntryModel,
    res: Option<FetchModel>,
) -> CrawlerModel {
    let page = match res {
        Some(f) => PageModel { links: spec_links_of(f.links, m.base), ..spec_page_of(e, res) },
        None => spec_page_of(e, res),
    };
    let queue = match res {
        Some(f) => if e.depth < m.max_depth {
            m.to_visit + spec_enqueue_links(
                f.links,
                m.base,
                m.visited,
                m.follow_external,
                m.keep_fragments,
                e.depth,
            )
        } else {
            m.to_visit
        },
        None => m.to_visit,
    };
    CrawlerModel { to_visit: queue, pages: m.pages.push((e.norm, page)), ..m }
}

pub open spec fn spec_record_results(
    m: CrawlerModel,
    entries: Seq<BatchEntryModel>,
    results: Seq<Option<FetchModel>>,
) -> CrawlerModel
    decreases entries.len(),
{
    if entries.len() == 0 {
        m
    } else {
        spec_record_results(
            spec_record_one(m, entries[0], results[0]),
            entries.skip(1),
            results.skip(1),
        )
    }
}

/// The state after a batch's results are merged back: every pending entry
/// recorded in order, the batch cleared.
pub open spec fn spec_record_step(
    m: CrawlerModel,
    results: Seq<Option<FetchModel>>,
) -> CrawlerModel {
    spec_record_results(
        CrawlerModel { pending: Seq::empty(), ..m },
        m.pending,
        results,
    )
}

/// What a crawl records for a page does not depend on `follow_external`,
/// on the visited set, on the frontier, or on the robots rules: two
/// crawls that agree on the origin, the fragment policy, the depth limit
/// and the pages recorded so far record identical pages (keys, fields and
/// link classifications alike) for the same batch and fetch results. Only
/// which of those links are then fetched may differ.
pub proof fn lemma_records_independent_of_follow_external(
    m1: CrawlerModel,
    m2: CrawlerModel,
    entries: Seq<BatchEntryModel>,
    results: Seq<Option<FetchModel>>,
)
    requires
        m1.base == m2.base,
        m1.keep_fragments == m2.keep_fragments,
        m1.max_depth == m2.max_depth,
        m1.pages == m2.pages,
        entries.len() == results.len(),
    ensures
        spec_record_results(m1, entries, results).pages == spec_record_results(
            m2,
            entries,
            results,
        ).pages,
    decreases entries.len(),
{
    if entries.len() == 0 {
    } else {
        let n1 = spec_record_one(m1, entries[0], results[0]);
        let n2 = spec_record_one(m2, entries[0], results[0]);
        assert(n1.pages == n2.pages);
        lemma_records_independent_of_follow_external(n1, n2, entries.skip(1), results.skip(1));
    }
}

/// Whether `s` occurs in `v`.
fn contains_str(v: &Vec<String>, s: &str) -> (r: bool)
    ensures
        r == views_of(v@).contains(s@),
{
    let n = v.len();
    let mut i: usize = 0;
    while i < n
        invariant
            0 <= i <= n,
            n == v@.len(),
            forall|j: int| 0 <= j < i ==> views_of(v@)[j] != s@,
        decreases n - i,
    {
        if crate::text::str_eq(v[i].as_str(), s) {
            proof {
                assert(views_of(v@)[i as int] == s@);
            }
            return true;
        }
        i = i + 1;
    }
    proof {
        if views_of(v@).contains(s@) {
            let w = choose|j: int| 0 <= j < views_of(v@).len() && views_of(v@)[j] == s@;
            assert(views_of(v@)[w] != s@);
        }
    }
    false
}

impl Crawler {
    /// Builds a crawler from already parsed seed components; fails exactly
    /// when the scheme is neither `http` nor `https`.
    pub fn from_parts(start_url: &str, parts: UrlParts, config: CrawlerConfig) -> (r: Result<
        Crawler,
        CrawlError,
    >)
        ensures
            match r {
                Ok(c) => spec_is_http_scheme(parts@.scheme) && crawler_inv(c@) && c@ == spec_init(
                    start_url@,
                    parts@,
                    config,
                ),
                Err(e) => !spec_is_http_scheme(parts@.scheme) && e == CrawlError::InvalidScheme,
            },
    {
        if !crate::urls::is_http_scheme(&parts) {
            return Err(CrawlError::InvalidScheme);
        }
        let ghost pm = parts@;
        let base = parts.clone_parts();
        let mut to_visit: Vec<FrontierEntry> = Vec::new();
        to_visit.push(
            FrontierEntry { url: start_url.to_owned(), parts, depth: 0, via_external: false },
        );
        let c = Crawler {
            base_url: start_url.to_owned(),
            base,
            max_depth: config.max_depth,
            max_pages: config.max_pages,
            follow_external: config.follow_external,
            keep_fragments: config.keep_fragments,
            visited: Vec::new(),
            to_visit,
            pending: Vec::new(),
            pages: PageMap::new(),
            requests_per_second: config.requests_per_second,
            concurrent_requests: config.concurrent_requests,
            respect_robots_txt: config.respect_robots_txt,
            robots_txt: RobotsTxt::new(),
        };
        proof {
            let m = spec_init(start_url@, pm, config);
            assert(c@.visited =~= m.visited);
            assert(c@.to_visit =~= m.to_visit);
            assert(c@.pending =~= m.pending);
            assert(c@.pages =~= m.pages);
            assert(c@.robots =~= m.robots);
            assert(c@.robots_fetched =~= m.robots_fetched);
            assert(c@ == m);
        }
        Ok(c)
    }

    /// Builds a crawler for `start_url`. The URL must parse as an absolute
    /// URL with an `http` or `https` scheme; any other input is a
    /// configuration error, surfaced before any network access.
    pub fn new(start_url: &str, config: CrawlerConfig) -> (r: Result<Crawler, CrawlError>)
        ensures
            match r {
                Ok(c) => crawler_inv(c@) && (exists|p: UrlPartsModel|
                    spec_is_http_scheme(p.scheme) && c@ == spec_init(start_url@, p, config)),
                Err(e) => e == CrawlError::InvalidUrl || e == CrawlError::InvalidScheme,
            },
    {
        match parse_url(start_url) {
            None => Err(CrawlError::InvalidUrl),
            Some(parts) => {
                let ghost pm = parts@;
                match Crawler::from_parts(start_url, parts, config) {
                    Ok(c) => {
                        proof {
                            assert(spec_is_http_scheme(pm.scheme) && c@ == spec_init(
                                start_url@,
                                pm,
                                config,
                            ));
                        }
                        Ok(c)
                    },
                    Err(e) => Err(e),
                }
            },
        }
    }

    /// The traversal is over once the frontier is empty or the visited
    /// count has reached the page budget.
    pub fn is_done(&self) -> (r: bool)
        ensures
            r == (self@.to_visit.len() == 0 || self@.visited.len() >= self@.max_pages),
    {
        self.to_visit.len() == 0 || self.visited.len() >= self.max_pages
    }

    /// Where the crawl-policy declaration of the seed's domain is to be
    /// requested from, if robots compliance is on and it has not been
    /// requested yet.
    pub fn robots_target(&self) -> (r: Option<String>)
        ensures
            match r {
                Some(u) => self@.respect_robots_txt && !self@.robots_fetched.contains(
                    crate::urls::spec_domain_key(self@.base),
                ) && u@ == crate::urls::spec_robots_url(self@.base),
                None => !self@.respect_robots_txt || self@.robots_fetched.contains(
                    crate::urls::spec_domain_key(self@.base),
                ),
            },
    {
        if self.respect_robots_txt && !self.robots_txt.is_fetched(&self.base) {
            Some(crate::urls::robots_url(&self.base))
        } else {
            None
        }
    }

    /// Records the outcome of requesting the seed domain's crawl policy:
    /// `Some` text is parsed into rules, `None` (failure or non-success
    /// status) leaves the domain unrestricted.
    pub fn record_robots(&mut self, body: Option<&str>)
        requires
            crawler_inv(old(self)@),
        ensures
            crawler_inv(final(self)@),
            final(self)@ == (CrawlerModel {
                robots: final(self)@.robots,
                robots_fetched: final(self)@.robots_fetched,
                ..old(self)@
            }),
            ({
                let d = crate::urls::spec_domain_key(old(self)@.base);
                let g0 = old(self)@.robots;
                let f0 = old(self)@.robots_fetched;
                if f0.contains(d) {
                    final(self)@.robots == g0 && final(self)@.robots_fetched == f0
                } else {
                    final(self)@.robots_fetched == f0.push(d) && final(self)@.robots == (match body {
                        Some(c) => crate::robots::spec_parse(g0, d, c@),
                        None => g0,
                    })
                }
            }),
    {
        let b = self.base.clone_parts();
        self.robots_txt.record_response(&b, body);
    }

    /// Builds the next batch: up to `concurrent_requests` URLs from the
    /// queue front, skipping visited and too-deep entries, marking
    /// robots-denied URLs visited without fetching, and stopping before
    /// the page budget would be exceeded. The admitted entries are held
    /// until `record_results`; the returned URLs are theirs, in order.
    pub fn start_batch(&mut self) -> (r: Vec<String>)
        requires
            crawler_inv(old(self)@),
            old(self)@.pending.len() == 0,
        ensures
            crawler_inv(final(self)@),
            final(self)@ == spec_build_batch(old(self)@),
            r@.len() == final(self)@.pending.len(),
            forall|i: int| 0 <= i < r@.len() ==> r@[i]@ == final(self)@.pending[i].url,
    {
        let mut urls: Vec<String> = Vec::new();
        loop
            invariant_except_break
                crawler_inv(self@),
                spec_build_batch(self@) == spec_build_batch(old(self)@),
                urls@.len() == self@.pending.len(),
                forall|i: int| 0 <= i < urls@.len() ==> urls@[i]@ == self@.pending[i].url,
            ensures
                crawler_inv(self@),
                self@ == spec_build_batch(old(self)@),
                urls@.len() == self@.pending.len(),
                forall|i: int| 0 <= i < urls@.len() ==> urls@[i]@ == self@.pending[i].url,
            decreases self@.to_visit.len(),
        {
            let ghost pre = self@;
            if self.to_visit.len() == 0 {
                proof {
                    assert(spec_build_batch(pre) == pre);
                }
                break;
            }
            if self.pending.len() >= self.concurrent_requests {
                proof {
                    assert(spec_build_batch(pre) == pre);
                }
                break;
            }
            let ghost e = pre.to_visit[0];
            let ghost rest = CrawlerModel { to_visit: pre.to_visit.skip(1), ..pre };
            let depth = self.to_visit[0].depth;
            let norm = normalize_url(self.to_visit[0].url.as_str(), self.keep_fragments);
            proof {
                assert(e == self.to_visit@[0]@);
                assert(norm@ == spec_normalize(e.url, pre.keep_fragments));
            }
            let visited_has = contains_str(&self.visited, norm.as_str());
            if visited_has || depth > self.max_depth {
                let _dropped = self.to_visit.remove(0);
                proof {
                    assert(self@.to_visit =~= pre.to_visit.skip(1));
                    assert(self@ == rest);
                    assert(spec_build_batch(pre) == spec_build_batch(rest));
                }
            } else {
                let allowed: bool = if self.respect_robots_txt {
                    self.robots_txt.is_allowed(&self.to_visit[0].parts, "scoutly")
                } else {
                    true
                };
                proof {
                    assert(allowed == spec_robots_allows(pre, e.parts));
                }
                if !allowed {
                    let _dropped = self.to_visit.remove(0);
                    self.visited.push(norm);
                    proof {
                        let cur = self@;
                        assert(cur.to_visit =~= pre.to_visit.skip(1));
                        assert(cur.visited =~= pre.visited.push(spec_normalize(
                            e.url,
                            pre.keep_fragments,
                        )));
                        assert(cur == CrawlerModel {
                            visited: pre.visited.push(spec_normalize(e.url, pre.keep_fragments)),
                            ..rest
                        });
                        assert(spec_build_batch(pre) == spec_build_batch(cur));
                        assert forall|i: int| 0 <= i < cur.pages.len() implies cur.visited.contains(
                            #[trigger] cur.pages[i].0,
                        ) by {
                            let w = choose|k: int|
                                0 <= k < pre.visited.len() && pre.visited[k] == pre.pages[i].0;
                            assert(cur.visited[w] == cur.pages[i].0);
                        }
                        assert forall|i: int| 0 <= i < cur.pending.len() implies
                            cur.visited.contains(#[trigger] cur.pending[i].norm) by {
                            let w = choose|k: int|
                                0 <= k < pre.visited.len() && pre.visited[k] == pre.pending[i].norm;
                            assert(cur.visited[w] == cur.pending[i].norm);
                        }
                    }
                } else {
                    let at_cap: bool = self.visited.len() >= self.max_pages - self.pending.len();
                    proof {
                        assert(pre.pending.len() <= pre.max_pages);
                        assert(at_cap == (pre.visited.len() + pre.pending.len()
                            >= pre.max_pages));
                    }
                    if at_cap {
                        proof {
                            assert(spec_build_batch(pre) == pre);
                        }
                        break;
                    }
                    let entry = self.to_visit.remove(0);
                    self.visited.push(norm.clone());
                    urls.push(entry.url.clone());
                    let ghost nm = norm@;
                    self.pending.push(
                        BatchEntry {
                            url: entry.url,
                            norm,
                            depth: entry.depth,
                            via_external: entry.via_external,
                        },
                    );
                    proof {
                        let cur = self@;
                        let nb = BatchEntryModel {
                            url: e.url,
                            norm: nm,
                            depth: e.depth,
                            via_external: e.via_external,
                        };
                        assert(cur.to_visit =~= pre.to_visit.skip(1));
                        assert(cur.visited =~= pre.visited.push(nm));
                        assert(cur.pending =~= pre.pending.push(nb));
                        assert(cur == CrawlerModel {
                            visited: pre.visited.push(nm),
                            pending: pre.pending.push(nb),
                            ..rest
                        });
                        assert(spec_build_batch(pre) == spec_build_batch(cur));
                        assert forall|i: int| 0 <= i < cur.pages.len() implies cur.visited.contains(
                            #[trigger] cur.pages[i].0,
                        ) by {
                            let w = choose|k: int|
                                0 <= k < pre.visited.len() && pre.visited[k] == pre.pages[i].0;
                            assert(cur.visited[w] == cur.pages[i].0);
                        }
                        assert forall|i: int| 0 <= i < cur.pending.len() implies
                            cur.visited.contains(#[trigger] cur.pending[i].norm) by {
                            if i < pre.pending.len() {
                                let w = choose|k: int|
                                    0 <= k < pre.visited.len() && pre.visited[k]
                                        == pre.pending[i].norm;
                                assert(cur.visited[w] == cur.pending[i].norm);
                            } else {
                                assert(cur.visited[pre.visited.len() as int] == nm);
                            }
                        }
                        assert forall|i: int, j: int|
                            0 <= i < j < cur.pending.len() implies cur.pending[i].norm
                            != cur.pending[j].norm by {
                            if j == pre.pending.len() {
                                assert(pre.visited.contains(pre.pending[i].norm));
                                assert(cur.pending[i].norm == pre.pending[i].norm);
                                assert(cur.pending[j].norm == nm);
                                assert(!pre.visited.contains(nm));
                            }
                        }
                        assert forall|i: int, j: int|
                            0 <= i < cur.pages.len() && 0 <= j < cur.pending.len() implies
                            cur.pages[i].0 != cur.pending[j].norm by {
                            if j == pre.pending.len() {
                                let w = choose|k: int|
                                    0 <= k < pre.visited.len() && pre.visited[k] == pre.pages[i].0;
                                assert(pre.pages[i].0 != nm);
                            }
                        }
                    }
                }
            }
        }
        urls
    }

    /// Merges a batch's fetch results back, in order: each held entry
    /// becomes a page record under its normalized URL (a minimal record
    /// when the fetch failed), and a successful page's links join the
    /// frontier while depth remains.
    pub fn record_results(&mut self, results: Vec<PageFetch>)
        requires
            crawler_inv(old(self)@),
            results@.len() == old(self)@.pending.len(),
        ensures
            crawler_inv(final(self)@),
            final(self)@.pending.len() == 0,
            final(self)@ == spec_record_step(old(self)@, views_of(results@)),
    {
        let ghost m0 = self@;
        let ghost rv0 = views_of(results@);
        let mut rest_results = results;
        while self.pending.len() > 0
            invariant
                crawler_inv(self@),
                rest_results@.len() == self@.pending.len(),
                spec_record_results(
                    (CrawlerModel { pending: Seq::empty(), ..self@ }),
                    self@.pending,
                    views_of(rest_results@),
                ) == spec_record_step(m0, rv0),
            decreases self@.pending.len(),
        {
            let ghost pre = self@;
            let ghost strip_pre = CrawlerModel { pending: Seq::empty(), ..pre };
            let ghost e = pre.pending[0];
            let ghost vold = views_of(rest_results@);
            let ghost r0 = vold[0];
            let ghost rrest = vold.skip(1);
            let entry = self.pending.remove(0);
            let result = rest_results.remove(0);
            let BatchEntry { url: entry_url, norm: entry_norm, depth: entry_depth, via_external:
                entry_via } = entry;
            proof {
                assert(e == BatchEntryModel {
                    url: entry_url@,
                    norm: entry_norm@,
                    depth: entry_depth as nat,
                    via_external: entry_via,
                });
                assert(result@ == r0);
                assert(self@.pending =~= pre.pending.skip(1));
                assert(views_of(rest_results@) =~= rrest);
                assert forall|i: int| 0 <= i < self@.pages.len() implies self@.pages[i].0
                    != e.norm by {
                    assert(pre.pages[i].0 != pre.pending[0].norm);
                }
                if PageMap::contains_key_view(self@.pages, e.norm) {
                    let w = choose|i: int|
                        0 <= i < self@.pages.len() && #[trigger] self@.pages[i].0 == e.norm;
                    assert(self@.pages[w].0 != e.norm);
                }
            }
            let ghost mid = self@;
            let ghost target = spec_record_one(strip_pre, e, r0);
            match result {
                PageFetch::Failure => {
                    let page = PageInfo {
                        url: entry_url,
                        status_code: None,
                        content_type: None,
                        title: None,
                        meta_description: None,
                        h1_tags: Vec::new(),
                        links: Vec::new(),
                        images: Vec::new(),
                        open_graph: OpenGraphTags::empty(),
                        issues: Vec::new(),
                        crawl_depth: entry_depth,
                    };
                    proof {
                        assert(page@.h1_tags =~= Seq::<Seq<char>>::empty());
                        assert(page@.links =~= Seq::<LinkModel>::empty());
                        assert(page@.images =~= Seq::<ImageModel>::empty());
                        assert(page@.issues =~= Seq::<crate::models::SeoIssueModel>::empty());
                        assert(page@ == spec_page_of(e, None::<FetchModel>));
                    }
                    let ghost pg = page@;
                    self.pages.insert(entry_norm, page);
                    proof {
                        assert(self@.pages =~= pre.pages.push((e.norm, pg)));
                    }
                },
                PageFetch::Success {
                    status_code,
                    content_type,
                    title,
                    meta_description,
                    h1_tags,
                    links,
                    images,
                    open_graph,
                } => {
                    let ghost fm = FetchModel {
                        status_code: status_code,
                        content_type: crate::models::view_opt_string(content_type),
                        title: crate::models::view_opt_string(title),
                        meta_description: crate::models::view_opt_string(meta_description),
                        h1_tags: h1_tags.deep_view(),
                        links: views_of(links@),
                        images: views_of(images@),
                        open_graph: open_graph@,
                    };
                    proof {
                        assert(r0 == Some(fm));
                    }
                    let ghost raws0 = fm.links;
                    let ghost q0 = self@.to_visit;
                    let expand: bool = entry_depth < self.max_depth;
                    let mut link_records: Vec<Link> = Vec::new();
                    let n = links.len();
                    let mut i: usize = 0;
                    proof {
                        assert(raws0.take(0) =~= Seq::<RawLinkModel>::empty());
                        assert(q0 + Seq::<FrontierEntryModel>::empty() =~= q0);
                        assert(views_of(link_records@) =~= spec_links_of(raws0.take(0), mid.base));
                    }
                    while i < n
                        invariant
                            0 <= i <= n,
                            n == links@.len(),
                            raws0 == views_of(links@),
                            e.depth == entry_depth as nat,
                            entry_depth <= mid.max_depth,
                            expand == (e.depth < mid.max_depth),
                            crawler_inv(self@),
                            self@ == (CrawlerModel { to_visit: self@.to_visit, ..mid }),
                            self@.to_visit == q0 + (if expand {
                                spec_enqueue_links(
                                    raws0.take(i as int),
                                    mid.base,
                                    mid.visited,
                                    mid.follow_external,
                                    mid.keep_fragments,
                                    e.depth,
                                )
                            } else {
                                Seq::<FrontierEntryModel>::empty()
                            }),
                            views_of(link_records@) == spec_links_of(raws0.take(i as int), mid.base),
                        decreases n - i,
                    {
                        proof {
                            assert(raws0[i as int] == links@[i as int]@);
                        }
                        let ext = is_external_url(&links[i].parts, &self.base);
                        let ghost qbefore = self@.to_visit;
                        if expand && (!ext || self.follow_external) {
                            let nl = normalize_url(links[i].url.as_str(), self.keep_fragments);
                            if !contains_str(&self.visited, nl.as_str()) {
                                self.to_visit.push(
                                    FrontierEntry {
                                        url: links[i].url.clone(),
                                        parts: links[i].parts.clone_parts(),
                                        depth: entry_depth + 1,
                                        via_external: ext,
                                    },
                                );
                                proof {
                                    assert(self@.to_visit =~= qbefore.push(
                                        FrontierEntryModel {
                                            url: raws0[i as int].url,
                                            parts: raws0[i as int].parts,
                                            depth: e.depth + 1,
                                            via_external: ext,
                                        },
                                    ));
                                }
                            }
                        }
                        let ghost lr0 = link_records@;
                        link_records.push(
                            Link {
                                url: links[i].url.clone(),
                                text: links[i].text.clone(),
                                is_external: ext,
                                status_code: None,
                                redirected_url: None,
                            },
                        );
                        proof {
                            lemma_enqueue_snoc(
                                raws0.take(i as int),
                                raws0[i as int],
                                mid.base,
                                mid.visited,
                                mid.follow_external,
                                mid.keep_fragments,
                                e.depth,
                            );
                            assert(raws0.take(i + 1) =~= raws0.take(i as int).push(
                                raws0[i as int],
                            ));
                            if expand {
                                let a = spec_enqueue_links(
                                    raws0.take(i as int),
                                    mid.base,
                                    mid.visited,
                                    mid.follow_external,
                                    mid.keep_fragments,
                                    e.depth,
                                );
                                let b = spec_enqueue_links(
                                    raws0.take(i + 1),
                                    mid.base,
                                    mid.visited,
                                    mid.follow_external,
                                    mid.keep_fragments,
                                    e.depth,
                                );
                                assert(q0 + b =~= (q0 + a) + (b.skip(a.len() as int)));
                                assert(self@.to_visit =~= q0 + b);
                            }
                            assert(views_of(lr0) == spec_links_of(raws0.take(i as int), mid.base));
                            assert(raws0.take(i as int).len() == i as int);
                            assert(views_of(lr0).len() == lr0.len());
                            assert(lr0.len() == i as int);
                            assert(link_records@.len() == i + 1);
                            assert forall|j: int| 0 <= j <= i implies link_records@[j]@
                                == spec_link_of(raws0.take(i + 1)[j], mid.base) by {
                                assert(raws0.take(i + 1)[j] == raws0[j]);
                                if j < i {
                                    assert(link_records@[j] == lr0[j]);
                                    assert(views_of(lr0)[j] == spec_links_of(
                                        raws0.take(i as int),
                                        mid.base,
                                    )[j]);
                                    assert(raws0.take(i as int)[j] == raws0[j]);
                                } else {
                                    assert(link_records@[j]@ == spec_link_of(
                                        raws0[i as int],
                                        mid.base,
                                    ));
                                }
                            }
                            assert(views_of(link_records@) =~= spec_links_of(
                                raws0.take(i + 1),
                                mid.base,
                            ));
                        }
                        i = i + 1;
                    }
                    proof {
                        assert(raws0.take(n as int) =~= raws0);
                    }
                    let page = PageInfo {
                        url: entry_url,
                        status_code: Some(status_code),
                        content_type,
                        title,
                        meta_description,
                        h1_tags,
                        links: link_records,
                        images,
                        open_graph,
                        issues: Vec::new(),
                        crawl_depth: entry_depth,
                    };
                    proof {
                        assert(page@.issues =~= Seq::<crate::models::SeoIssueModel>::empty());
                        assert(page@ == (PageModel {
                            links: spec_links_of(fm.links, strip_pre.base),
                            ..spec_page_of(e, r0)
                        }));
                    }
                    let ghost pg = page@;
                    self.pages.insert(entry_norm, page);
                    proof {
                        assert(self@.pages =~= pre.pages.push((e.norm, pg)));
                    }
                },
            }
            proof {
                let cur = self@;
                assert((CrawlerModel { pending: Seq::empty(), ..cur }) == target);
                assert(spec_record_results(strip_pre, pre.pending, vold)
                    == spec_record_results(target, pre.pending.skip(1), vold.skip(1))) by {
                    assert(vold[0] == r0);
                    assert(pre.pending[0] == e);
                }
                assert forall|a: int, b: int| 0 <= a < b < cur.pages.len() implies cur.pages[a].0
                    != cur.pages[b].0 by {
                    if b < pre.pages.len() {
                        assert(pre.pages[a].0 != pre.pages[b].0);
                    } else {
                        assert(cur.pages[b].0 == e.norm);
                        assert(cur.pages[a].0 == pre.pages[a].0);
                        assert(pre.pages[a].0 != pre.pending[0].norm);
                    }
                }
                assert forall|a: int| 0 <= a < cur.pages.len() implies cur.visited.contains(
                    #[trigger] cur.pages[a].0,
                ) by {
                    if a < pre.pages.len() {
                        assert(pre.visited.contains(pre.pages[a].0));
                    } else {
                        assert(pre.visited.contains(pre.pending[0].norm));
                    }
                }
                assert forall|a: int| 0 <= a < cur.pending.len() implies cur.visited.contains(
                    #[trigger] cur.pending[a].norm,
                ) by {
                    assert(cur.pending[a] == pre.pending[a + 1]);
                    assert(pre.visited.contains(pre.pending[a + 1].norm));
                }
                assert forall|a: int, b: int| 0 <= a < b < cur.pending.len() implies
                    cur.pending[a].norm != cur.pending[b].norm by {
                    assert(cur.pending[a] == pre.pending[a + 1]);
                    assert(cur.pending[b] == pre.pending[b + 1]);
                    assert(pre.pending[a + 1].norm != pre.pending[b + 1].norm);
                }
                assert forall|a: int, b: int|
                    0 <= a < cur.pages.len() && 0 <= b < cur.pending.len() implies cur.pages[a].0
                    != cur.pending[b].norm by {
                    assert(cur.pending[b] == pre.pending[b + 1]);
                    if a < pre.pages.len() {
                        assert(pre.pages[a].0 != pre.pending[b + 1].norm);
                    } else {
                        assert(cur.pages[a].0 == e.norm);
                        assert(pre.pending[0].norm != pre.pending[b + 1].norm);
                    }
                }
            }
        }
        proof {
            assert(self@.pending =~= Seq::<BatchEntryModel>::empty());
            assert(views_of(rest_results@) =~= Seq::<Option<FetchModel>>::empty());
            assert((CrawlerModel { pending: Seq::empty(), ..self@ }) == self@);
            assert(rv0.len() == m0.pending.len());
        }
    }
}

} // verus!

