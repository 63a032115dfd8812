//! The link validator: deduplicates every link target across the crawl
//! result, interprets probe responses (telling true redirects from
//! fragment-only differences), and writes status, redirect target and
//! issues back to every referencing page.

use vstd::prelude::*;
use vstd::string::StringExecFns;

use crate::models::{
    clone_image, clone_issue, clone_link, clone_opt_string, views_of, IssueSeverity, IssueType,
    Link, LinkModel, PageInfo, PageMap, PageModel, SeoIssue, SeoIssueModel,
};
use crate::text::{lemma_index_of_unique, spec_index_of, str_eq, u64_to_string, dec_seq};
use crate::urls::spec_normalize;

verus! {

/// What probing one URL produced: the final status, and the final URL when
/// the request was redirected somewhere else. A transport failure leaves
/// both empty.
#[derive(Debug)]
pub struct ProbeOutcome {
    pub status_code: Option<u16>,
    pub redirected_url: Option<String>,
}

#[verifier::ext_equal]
pub ghost struct ProbeOutcomeModel {
    pub status_code: Option<u16>,
    pub redirected_url: Option<Seq<char>>,
}

impl View for ProbeOutcome {
    type V = ProbeOutcomeModel;

    open spec fn view(&self) -> ProbeOutcomeModel {
        ProbeOutcomeModel {
            status_code: self.status_code,
            redirected_url: crate::models::view_opt_string(self.redirected_url),
        }
    }
}

/// Spec view of a raw probe response.
pub open spec fn view_opt_response(o: Option<(u16, String)>) -> Option<(u16, Seq<char>)> {
    match o {
        Some((st, fin)) => Some((st, fin@)),
        None => None,
    }
}

/// How a probe response is read: a transport failure records nothing; a
/// response records its status, and the final URL counts as a redirect
/// only when it differs from the requested URL with fragments ignored.
pub open spec fn spec_probe_outcome(
    url: Seq<char>,
    response: Option<(u16, Seq<char>)>,
) -> ProbeOutcomeModel {
    match response {
        None => ProbeOutcomeModel { status_code: None, redirected_url: None },
        Some((st, fin)) => ProbeOutcomeModel {
            status_code: Some(st),
            redirected_url: if spec_normalize(fin, false) != spec_normalize(url, false) {
                Some(fin)
            } else {
                None
            },
        },
    }
}

/// Whether `u` is the target of some link of some page.
pub open spec fn spec_is_link_target(m: Seq<(Seq<char>, PageModel)>, u: Seq<char>) -> bool {
    exists|i: int, j: int|
        0 <= i < m.len() && 0 <= j < m[i].1.links.len() && (#[trigger] m[i].1.links[j]).url == u
}

/// The link record after validation: the probed outcome of its target
/// written in, or untouched when its target was not probed.
pub open spec fn spec_checked_link(
    l: LinkModel,
    urls: Seq<Seq<char>>,
    outcomes: Seq<ProbeOutcomeModel>,
) -> LinkModel {
    let k = spec_index_of(urls, l.url);
    if k < urls.len() {
        LinkModel {
            status_code: outcomes[k].status_code,
            redirected_url: outcomes[k].redirected_url,
            ..l
        }
    } else {
        l
    }
}

pub open spec fn spec_redirect_message(u: Seq<char>, t: Seq<char>) -> Seq<char> {
    "Link redirected: "@ + u + " -> "@ + t
}

pub open spec fn spec_broken_message(u: Seq<char>, c: u16) -> Seq<char> {
    "Broken link: "@ + u + " (HTTP "@ + dec_seq(c as nat) + ")"@
}

/// The issues one validated link adds to its page: an informational one
/// for a recorded redirect (unless redirects are ignored), and an
/// error-severity one for a status of 400 or above. A link whose target
/// was not probed, or whose probe failed, adds none.
pub open spec fn spec_link_issues(
    l: LinkModel,
    urls: Seq<Seq<char>>,
    outcomes: Seq<ProbeOutcomeModel>,
    ignore_redirects: bool,
) -> Seq<SeoIssueModel> {
    let k = spec_index_of(urls, l.url);
    if k < urls.len() {
        let o = outcomes[k];
        let red: Seq<SeoIssueModel> = match o.redirected_url {
            Some(t) => if !ignore_redirects {
                seq![
                    SeoIssueModel {
                        severity: IssueSeverity::Info,
                        issue_type: IssueType::Redirect,
                        message: spec_redirect_message(l.url, t),
                    },
                ]
            } else {
                Seq::empty()
            },
            None => Seq::empty(),
        };
        let broken: Seq<SeoIssueModel> = match o.status_code {
            Some(c) => if c >= 400 {
                seq![
                    SeoIssueModel {
                        severity: IssueSeverity::Error,
                        issue_type: IssueType::BrokenLink,
                        message: spec_broken_message(l.url, c),
                    },
                ]
            } else {
                Seq::empty()
            },
            None => Seq::empty(),
        };
        red + broken
    } else {
        Seq::empty()
    }
}

/// The issues a page's links add, in link order.
pub open spec fn spec_page_issues(
    links: Seq<LinkModel>,
    urls: Seq<Seq<char>>,
    outcomes: Seq<ProbeOutcomeModel>,
    ignore_redirects: bool,
) -> Seq<SeoIssueModel>
    decreases links.len(),
{
    if links.len() == 0 {
        Seq::empty()
    } else {
        spec_link_issues(links[0], urls, outcomes, ignore_redirects) + spec_page_issues(
            links.skip(1),
            urls,
            outcomes,
            ignore_redirects,
        )
    }
}

pub proof fn lemma_page_issues_snoc(
    links: Seq<LinkModel>,
    x: LinkModel,
    urls: Seq<Seq<char>>,
    outcomes: Seq<ProbeOutcomeModel>,
    ignore_redirects: bool,
)
    ensures
        spec_page_issues(links.push(x), urls, outcomes, ignore_redirects) == spec_page_issues(
            links,
            urls,
            outcomes,
            ignore_redirects,
        ) + spec_link_issues(x, urls, outcomes, ignore_redirects),
    decreases links.len(),
{
    let whole = links.push(x);
    if links.len() == 0 {
        assert(whole[0] == x);
        assert(links =~= Seq::<LinkModel>::empty());
        assert(whole.skip(1) =~= Seq::<LinkModel>::empty());
        assert(spec_link_issues(x, urls, outcomes, ignore_redirects) + Seq::<
            SeoIssueModel,
        >::empty() =~= spec_link_issues(x, urls, outcomes, ignore_redirects));
        assert(Seq::<SeoIssueModel>::empty() + spec_link_issues(x, urls, outcomes, ignore_redirects)
            =~= spec_link_issues(x, urls, outcomes, ignore_redirects));
    } else {
        assert(whole[0] == links[0]);
        assert(whole.skip(1) =~= links.skip(1).push(x));
        lemma_page_issues_snoc(links.skip(1), x, urls, outcomes, ignore_redirects);
        assert(spec_link_issues(links[0], urls, outcomes, ignore_redirects) + (spec_page_issues(
            links.skip(1),
            urls,
            outcomes,
            ignore_redirects,
        ) + spec_link_issues(x, urls, outcomes, ignore_redirects)) =~= (spec_link_issues(
            links[0],
            urls,
            outcomes,
            ignore_redirects,
        ) + spec_page_issues(links.skip(1), urls, outcomes, ignore_redirects)) + spec_link_issues(
            x,
            urls,
            outcomes,
            ignore_redirects,
        ));
    }
}

/// One page after validation: every link checked, the link issues
/// appended after the issues already present, everything else untouched.
pub open spec fn spec_checked_page(
    p: PageModel,
    urls: Seq<Seq<char>>,
    outcomes: Seq<ProbeOutcomeModel>,
    ignore_redirects: bool,
) -> PageModel {
    PageModel {
        links: Seq::new(p.links.len(), |j: int| spec_checked_link(p.links[j], urls, outcomes)),
        issues: p.issues + spec_page_issues(p.links, urls, outcomes, ignore_redirects),
        ..p
    }
}

/// The whole result map after validation.
pub open spec fn spec_check_all(
    m: Seq<(Seq<char>, PageModel)>,
    urls: Seq<Seq<char>>,
    outcomes: Seq<ProbeOutcomeModel>,
    ignore_redirects: bool,
) -> Seq<(Seq<char>, PageModel)> {
    Seq::new(m.len(), |i: int| (m[i].0, spec_checked_page(m[i].1, urls, outcomes, ignore_redirects)))
}

/// Link records with the same target receive the same validation outcome:
/// whatever pages reference a URL, after validation their records for it
/// carry one and the same status and redirect target.
pub proof fn lemma_same_target_same_outcome(
    m: Seq<(Seq<char>, PageModel)>,
    urls: Seq<Seq<char>>,
    outcomes: Seq<ProbeOutcomeModel>,
    ignore_redirects: bool,
    i1: int,
    j1: int,
    i2: int,
    j2: int,
)
    requires
        urls.len() == outcomes.len(),
        0 <= i1 < m.len(),
        0 <= j1 < m[i1].1.links.len(),
        0 <= i2 < m.len(),
        0 <= j2 < m[i2].1.links.len(),
        m[i1].1.links[j1].url == m[i2].1.links[j2].url,
        urls.contains(m[i1].1.links[j1].url),
    ensures
        ({
            let c = spec_check_all(m, urls, outcomes, ignore_redirects);
            c[i1].1.links[j1].status_code == c[i2].1.links[j2].status_code
                && c[i1].1.links[j1].redirected_url == c[i2].1.links[j2].redirected_url
        }),
{
    let c = spec_check_all(m, urls, outcomes, ignore_redirects);
    assert(c[i1].1 == spec_checked_page(m[i1].1, urls, outcomes, ignore_redirects));
    assert(c[i2].1 == spec_checked_page(m[i2].1, urls, outcomes, ignore_redirects));
    assert(c[i1].1.links[j1] == spec_checked_link(m[i1].1.links[j1], urls, outcomes));
    assert(c[i2].1.links[j2] == spec_checked_link(m[i2].1.links[j2], urls, outcomes));
    crate::text::lemma_index_of(urls, m[i1].1.links[j1].url);
    if spec_index_of(urls, m[i1].1.links[j1].url) >= urls.len() {
        let w = choose|t: int|
            0 <= t < urls.len() && urls[t] == m[i1].1.links[j1].url;
        assert(urls[w] != m[i1].1.links[j1].url);
    }
}

/// The position of `u` in the probed list, if present.
fn find_url_index(urls: &Vec<String>, u: &str) -> (r: Option<usize>)
    ensures
        ({
            let idx = spec_index_of(views_of(urls@), u@);
            match r {
                Some(k) => k == idx && idx < urls@.len(),
                None => idx == urls@.len(),
            }
        }),
{
    let ghost s = views_of(urls@);
    let n = urls.len();
    let mut i: usize = 0;
    while i < n
        invariant
            0 <= i <= n,
            n == urls@.len(),
            s == views_of(urls@),
            forall|j: int| 0 <= j < i ==> s[j] != u@,
        decreases n - i,
    {
        if str_eq(urls[i].as_str(), u) {
            proof {
                lemma_index_of_unique(s, u@, i as int);
            }
            return Some(i);
        }
        i = i + 1;
    }
    proof {
        lemma_index_of_unique(s, u@, n as int);
    }
    None
}

fn redirect_message(u: &str, t: &str) -> (r: String)
    ensures
        r@ == spec_redirect_message(u@, t@),
{
    let mut s = String::new();
    s.append("Link redirected: ");
    s.append(u);
    s.append(" -> ");
    s.append(t);
    s
}

fn broken_message(u: &str, c: u16) -> (r: String)
    ensures
        r@ == spec_broken_message(u@, c),
{
    let mut s = String::new();
    s.append("Broken link: ");
    s.append(u);
    s.append(" (HTTP ");
    let digits = u64_to_string(c as u64);
    s.append(digits.as_str());
    s.append(")");
    s
}

/// The link validator. Probing is the caller's part: `collect_links`
/// names each distinct target once, and `apply_results` writes the probed
/// outcomes back.
#[derive(Debug)]
pub struct LinkChecker {
}

impl Default for LinkChecker {
    fn default() -> (r: Self)
        ensures
            r == (LinkChecker {  }),
    {
        LinkChecker {  }
    }
}

impl LinkChecker {
    pub fn new() -> (r: Self) {
        LinkChecker {  }
    }

    /// Reads one probe response for `url`.
    pub fn probe_outcome(&self, url: &str, response: Option<(u16, String)>) -> (r: ProbeOutcome)
        ensures
            r@ == spec_probe_outcome(url@, view_opt_response(response)),
    {
        match response {
            None => ProbeOutcome { status_code: None, redirected_url: None },
            Some((st, fin)) => {
                let fin_norm = crate::urls::normalize_url(fin.as_str(), false);
                let url_norm = crate::urls::normalize_url(url, false);
                let redirected: Option<String> = if !crate::text::string_eq(&fin_norm, &url_norm) {
                    Some(fin)
                } else {
                    None
                };
                ProbeOutcome { status_code: Some(st), redirected_url: redirected }
            },
        }
    }

    /// Every distinct link target across all pages, each exactly once, so
    /// that each is probed exactly once however many pages reference it.
    pub fn collect_links(&self, pages: &PageMap) -> (r: Vec<String>)
        ensures
            forall|a: int, b: int| 0 <= a < b < r@.len() ==> r@[a]@ != r@[b]@,
            forall|k: int| 0 <= k < r@.len() ==> spec_is_link_target(pages@, #[trigger] r@[k]@),
            forall|i: int, j: int|
                0 <= i < pages@.len() && 0 <= j < pages@[i].1.links.len() ==> views_of(r@).contains(
                    (#[trigger] pages@[i].1.links[j]).url,
                ),
    {
        let mut acc: Vec<String> = Vec::new();
        let np = pages.entries.len();
        let mut i: usize = 0;
        while i < np
            invariant
                0 <= i <= np,
                np == pages@.len(),
                forall|a: int, b: int| 0 <= a < b < acc@.len() ==> acc@[a]@ != acc@[b]@,
                forall|k: int|
                    0 <= k < acc@.len() ==> spec_is_link_target(pages@, #[trigger] acc@[k]@),
                forall|i2: int, j2: int|
                    0 <= i2 < i && 0 <= j2 < pages@[i2].1.links.len() ==> views_of(acc@).contains(
                        (#[trigger] pages@[i2].1.links[j2]).url,
                    ),
            decreases np - i,
        {
            let nl = pages.entries[i].1.links.len();
            let mut j: usize = 0;
            while j < nl
                invariant
                    0 <= i < np,
                    0 <= j <= nl,
                    np == pages@.len(),
                    nl == pages@[i as int].1.links.len(),
                    forall|a: int, b: int| 0 <= a < b < acc@.len() ==> acc@[a]@ != acc@[b]@,
                    forall|k: int|
                        0 <= k < acc@.len() ==> spec_is_link_target(pages@, #[trigger] acc@[k]@),
                    forall|i2: int, j2: int|
                        0 <= i2 < i && 0 <= j2 < pages@[i2].1.links.len() ==> views_of(
                            acc@,
                        ).contains((#[trigger] pages@[i2].1.links[j2]).url),
                    forall|j2: int|
                        0 <= j2 < j ==> views_of(acc@).contains(
                            (#[trigger] pages@[i as int].1.links[j2]).url,
                        ),
                decreases nl - j,
            {
                let u = &pages.entries[i].1.links[j].url;
                proof {
                    assert(u@ == pages@[i as int].1.links[j as int].url);
                }
                let mut found: bool = false;
                let na = acc.len();
                let mut k: usize = 0;
                while k < na
                    invariant
                        0 <= k <= na,
                        na == acc@.len(),
                        found ==> views_of(acc@).contains(u@),
                        !found ==> forall|t: int| 0 <= t < k ==> acc@[t]@ != u@,
                    decreases na - k,
                {
                    if str_eq(acc[k].as_str(), u.as_str()) {
                        found = true;
                        proof {
                            assert(views_of(acc@)[k as int] == u@);
                        }
                        k = na;
                    } else {
                        k = k + 1;
                    }
                }
                if !found {
                    let ghost acc0 = acc@;
                    acc.push(u.clone());
                    proof {
                        assert(acc@.last()@ == pages@[i as int].1.links[j as int].url);
                        assert(spec_is_link_target(pages@, acc@.last()@));
                        assert forall|i2: int, j2: int|
                            0 <= i2 < i && 0 <= j2 < pages@[i2].1.links.len() implies views_of(
                            acc@,
                        ).contains((#[trigger] pages@[i2].1.links[j2]).url) by {
                            let w = choose|t: int|
                                0 <= t < acc0.len() && views_of(acc0)[t]
                                    == pages@[i2].1.links[j2].url;
                            assert(views_of(acc@)[w] == pages@[i2].1.links[j2].url);
                        }
                        assert forall|j2: int| 0 <= j2 <= j implies views_of(acc@).contains(
                            (#[trigger] pages@[i as int].1.links[j2]).url,
                        ) by {
                            if j2 < j {
                                let w = choose|t: int|
                                    0 <= t < acc0.len() && views_of(acc0)[t]
                                        == pages@[i as int].1.links[j2].url;
                                assert(views_of(acc@)[w] == pages@[i as int].1.links[j2].url);
                            } else {
                                assert(views_of(acc@)[acc0.len() as int] == pages@[i as int].1.links[
                                    j2].url);
                            }
                        }
                    }
                } else {
                    proof {
                        assert forall|j2: int| 0 <= j2 <= j implies views_of(acc@).contains(
                            (#[trigger] pages@[i as int].1.links[j2]).url,
                        ) by {
                        }
                    }
                }
                j = j + 1;
            }
            i = i + 1;
        }
        acc
    }

    /// Writes the probed outcomes back: for every page, every link whose
    /// target stands at position `k` of `urls` receives `outcomes[k]`'s
    /// status and redirect target, and the page gains the redirect and
    /// broken-link issues its links call for, in link order.
    pub fn apply_results(
        &self,
        pages: &mut PageMap,
        urls: &Vec<String>,
        outcomes: &Vec<ProbeOutcome>,
        ignore_redirects: bool,
    )
        requires
            old(pages).wf(),
            urls@.len() == outcomes@.len(),
        ensures
            final(pages).wf(),
            final(pages)@ == spec_check_all(
                old(pages)@,
                views_of(urls@),
                views_of(outcomes@),
                ignore_redirects,
            ),
    {
        let ghost m0 = pages@;
        let ghost us = views_of(urls@);
        let ghost os = views_of(outcomes@);
        let np = pages.entries.len();
        let mut i: usize = 0;
        while i < np
            invariant
                0 <= i <= np,
                np == m0.len(),
                np == pages@.len(),
                us == views_of(urls@),
                os == views_of(outcomes@),
                us.len() == os.len(),
                pages.wf(),
                forall|t: int| i <= t < np ==> pages@[t] == m0[t],
                forall|t: int|
                    0 <= t < i ==> pages@[t] == (
                    m0[t].0,
                    spec_checked_page(m0[t].1, us, os, ignore_redirects),
                ),
            decreases np - i,
        {
            let ghost p = m0[i as int].1;
            let nl = pages.entries[i].1.links.len();
            let mut new_links: Vec<Link> = Vec::new();
            let mut new_issues: Vec<SeoIssue> = Vec::new();
            let ni = pages.entries[i].1.issues.len();
            let mut t: usize = 0;
            while t < ni
                invariant
                    0 <= t <= ni,
                    0 <= i < np,
                    np == pages@.len(),
                    pages@[i as int].1 == p,
                    ni == p.issues.len(),
                    new_issues@.len() == t,
                    forall|w: int| 0 <= w < t ==> #[trigger] new_issues@[w]@ == p.issues[w],
                decreases ni - t,
            {
                new_issues.push(clone_issue(&pages.entries[i].1.issues[t]));
                t = t + 1;
            }
            let mut j: usize = 0;
            while j < nl
                invariant
                    0 <= j <= nl,
                    0 <= i < np,
                    np == pages@.len(),
                    pages@[i as int].1 == p,
                    nl == p.links.len(),
                    us == views_of(urls@),
                    os == views_of(outcomes@),
                    us.len() == os.len(),
                    new_links@.len() == j,
                    forall|w: int|
                        0 <= w < j ==> #[trigger] new_links@[w]@ == spec_checked_link(
                            p.links[w],
                            us,
                            os,
                        ),
                    views_of(new_issues@) == p.issues + spec_page_issues(
                        p.links.take(j as int),
                        us,
                        os,
                        ignore_redirects,
                    ),
                decreases nl - j,
            {
                let ghost l = p.links[j as int];
                let ghost issues_before = views_of(new_issues@);
                let link = &pages.entries[i].1.links[j];
                proof {
                    assert(link@ == l);
                    assert(p.links.take(j + 1) =~= p.links.take(j as int).push(l));
                    lemma_page_issues_snoc(
                        p.links.take(j as int),
                        l,
                        us,
                        os,
                        ignore_redirects,
                    );
                }
                match find_url_index(urls, link.url.as_str()) {
                    None => {
                        new_links.push(clone_link(link));
                        proof {
                            assert(spec_link_issues(l, us, os, ignore_redirects) =~= Seq::<
                                SeoIssueModel,
                            >::empty());
                            assert(views_of(new_issues@) =~= issues_before + spec_link_issues(
                                l,
                                us,
                                os,
                                ignore_redirects,
                            ));
                        }
                    },
                    Some(k) => {
                        let o = &outcomes[k];
                        proof {
                            assert(o@ == os[k as int]);
                        }
                        new_links.push(
                            Link {
                                url: link.url.clone(),
                                text: link.text.clone(),
                                is_external: link.is_external,
                                status_code: o.status_code,
                                redirected_url: clone_opt_string(&o.redirected_url),
                            },
                        );
                        let ghost red_issues: Seq<SeoIssueModel> = match os[k as int].redirected_url {
                            Some(tgt) => if !ignore_redirects {
                                seq![
                                    SeoIssueModel {
                                        severity: IssueSeverity::Info,
                                        issue_type: IssueType::Redirect,
                                        message: spec_redirect_message(l.url, tgt),
                                    },
                                ]
                            } else {
                                Seq::empty()
                            },
                            None => Seq::empty(),
                        };
                        if !ignore_redirects {
                            match &o.redirected_url {
                                Some(tgt) => {
                                    new_issues.push(
                                        SeoIssue {
                                            severity: IssueSeverity::Info,
                                            issue_type: IssueType::Redirect,
                                            message: redirect_message(
                                                link.url.as_str(),
                                                tgt.as_str(),
                                            ),
                                        },
                                    );
                                },
                                None => {},
                            }
                        }
                        proof {
                            assert(views_of(new_issues@) =~= issues_before + red_issues);
                        }
                        let ghost issues_mid = views_of(new_issues@);
                        let mut broken: bool = false;
                        match o.status_code {
                            Some(c) => {
                                if c >= 400 {
                                    broken = true;
                                    new_issues.push(
                                        SeoIssue {
                                            severity: IssueSeverity::Error,
                                            issue_type: IssueType::BrokenLink,
                                            message: broken_message(link.url.as_str(), c),
                                        },
                                    );
                                }
                            },
                            None => {},
                        }
                        proof {
                            let broken_issues: Seq<SeoIssueModel> = match os[
                                k as int].status_code {
                                Some(c) => if c >= 400 {
                                    seq![
                                        SeoIssueModel {
                                            severity: IssueSeverity::Error,
                                            issue_type: IssueType::BrokenLink,
                                            message: spec_broken_message(l.url, c),
                                        },
                                    ]
                                } else {
                                    Seq::empty()
                                },
                                None => Seq::empty(),
                            };
                            assert(views_of(new_issues@) =~= issues_mid + broken_issues);
                            assert(spec_link_issues(l, us, os, ignore_redirects) == red_issues
                                + broken_issues);
                            assert(views_of(new_issues@) =~= issues_before + spec_link_issues(
                                l,
                                us,
                                os,
                                ignore_redirects,
                            ));
                        }
                    },
                }
                proof {
                    assert(views_of(new_issues@) =~= p.issues + spec_page_issues(
                        p.links.take(j + 1),
                        us,
                        os,
                        ignore_redirects,
                    ));
                }
                j = j + 1;
            }
            let old_page = &pages.entries[i].1;
            let mut new_images: Vec<crate::models::Image> = Vec::new();
            let nim = old_page.images.len();
            let mut t2: usize = 0;
            while t2 < nim
                invariant
                    0 <= t2 <= nim,
                    0 <= i < np,
                    np == pages@.len(),
                    pages@[i as int].1 == p,
                    nim == p.images.len(),
                    new_images@.len() == t2,
                    forall|w: int| 0 <= w < t2 ==> #[trigger] new_images@[w]@ == p.images[w],
                decreases nim - t2,
            {
                new_images.push(clone_image(&pages.entries[i].1.images[t2]));
                t2 = t2 + 1;
            }
            let src = &pages.entries[i].1;
            let new_page = PageInfo {
                url: src.url.clone(),
                status_code: src.status_code,
                content_type: clone_opt_string(&src.content_type),
                title: clone_opt_string(&src.title),
                meta_description: clone_opt_string(&src.meta_description),
                h1_tags: src.h1_tags.clone(),
                links: new_links,
                images: new_images,
                open_graph: crate::models::clone_open_graph(&src.open_graph),
                issues: new_issues,
                crawl_depth: src.crawl_depth,
            };
            let key = pages.entries[i].0.clone();
            proof {
                assert(new_page.h1_tags.deep_view() =~= p.h1_tags);
                assert(views_of(new_page.links@) =~= spec_checked_page(
                    p,
                    us,
                    os,
                    ignore_redirects,
                ).links);
                assert(views_of(new_page.images@) =~= p.images);
                assert(p.links.take(nl as int) =~= p.links);
                assert(new_page@ == spec_checked_page(p, us, os, ignore_redirects));
            }
            let ghost before = pages@;
            pages.entries.set(i, (key, new_page));
            proof {
                assert(pages@ =~= before.update(
                    i as int,
                    (m0[i as int].0, spec_checked_page(p, us, os, ignore_redirects)),
                ));
                assert forall|a: int, b: int| 0 <= a < b < pages@.len() implies pages@[a].0
                    != pages@[b].0 by {
                    assert(before[a].0 != before[b].0);
                    assert(pages@[a].0 == before[a].0);
                    assert(pages@[b].0 == before[b].0);
                }
            }
            i = i + 1;
        }
        proof {
            assert(pages@ =~= spec_check_all(m0, us, os, ignore_redirects));
        }
    }
}

} // verus!
