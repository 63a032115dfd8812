//! Report assembly: an exact summary of the crawl result (page, link and
//! issue counts) packaged with a copy of the pages and a timestamp.

use vstd::prelude::*;

use crate::models::{
    clone_pages, views_of, CrawlReport, CrawlSummary, IssueSeverity, LinkModel, PageMap, PageModel,
    SeoIssue, SeoIssueModel,
};

verus! {

broadcast use crate::models::lemma_views_of_len, crate::models::lemma_views_of_index;

/// Relies on `chrono::Utc::now` and `DateTime::to_rfc3339`: the current
/// time rendered as an RFC 3339 timestamp. The value depends on the
/// clock, so nothing is assumed of it.
#[verifier::external_body]
fn now_rfc3339() -> (r: String) {
    chrono::Utc::now().to_rfc3339()
}

/// How many issues of severity `sev` a list holds.
pub open spec fn spec_issue_count(issues: Seq<SeoIssueModel>, sev: IssueSeverity) -> nat
    decreases issues.len(),
{
    if issues.len() == 0 {
        0
    } else {
        (if issues[0].severity == sev {
            1nat
        } else {
            0nat
        }) + spec_issue_count(issues.skip(1), sev)
    }
}

/// How many links of a list were probed broken (status 400 or above).
pub open spec fn spec_broken_count(links: Seq<LinkModel>) -> nat
    decreases links.len(),
{
    if links.len() == 0 {
        0
    } else {
        (match links[0].status_code {
            Some(c) => if c >= 400 {
                1nat
            } else {
                0nat
            },
            None => 0nat,
        }) + spec_broken_count(links.skip(1))
    }
}

/// The links of all pages, counted.
pub open spec fn spec_sum_links(m: Seq<(Seq<char>, PageModel)>) -> nat
    decreases m.len(),
{
    if m.len() == 0 {
        0
    } else {
        m[0].1.links.len() + spec_sum_links(m.skip(1))
    }
}

/// The issues of severity `sev` of all pages, counted.
pub open spec fn spec_sum_issues(m: Seq<(Seq<char>, PageModel)>, sev: IssueSeverity) -> nat
    decreases m.len(),
{
    if m.len() == 0 {
        0
    } else {
        spec_issue_count(m[0].1.issues, sev) + spec_sum_issues(m.skip(1), sev)
    }
}

/// The broken links of all pages, counted.
pub open spec fn spec_sum_broken(m: Seq<(Seq<char>, PageModel)>) -> nat
    decreases m.len(),
{
    if m.len() == 0 {
        0
    } else {
        spec_broken_count(m[0].1.links) + spec_sum_broken(m.skip(1))
    }
}

/// What the summary of a crawl result states.
pub open spec fn spec_summary_ok(m: Seq<(Seq<char>, PageModel)>, s: CrawlSummary) -> bool {
    &&& s.total_pages == m.len()
    &&& s.total_links == spec_sum_links(m)
    &&& s.broken_links == spec_sum_broken(m)
    &&& s.errors == spec_sum_issues(m, IssueSeverity::Error)
    &&& s.warnings == spec_sum_issues(m, IssueSeverity::Warning)
    &&& s.infos == spec_sum_issues(m, IssueSeverity::Info)
}

fn count_issues(issues: &Vec<SeoIssue>, sev: IssueSeverity) -> (r: usize)
    ensures
        r == spec_issue_count(views_of(issues@), sev),
{
    let ghost s = views_of(issues@);
    let n = issues.len();
    let mut c: usize = 0;
    let mut t: usize = 0;
    proof {
        assert(s.skip(0) =~= s);
    }
    while t < n
        invariant
            0 <= t <= n,
            n == issues@.len(),
            s == views_of(issues@),
            c <= t,
            c + spec_issue_count(s.skip(t as int), sev) == spec_issue_count(s, sev),
        decreases n - t,
    {
        proof {
            assert(s.skip(t as int)[0] == issues@[t as int]@);
            assert(s.skip(t as int).skip(1) =~= s.skip(t + 1));
        }
        if issues[t].severity == sev {
            c = c + 1;
        }
        t = t + 1;
    }
    proof {
        assert(s.skip(n as int) =~= Seq::<SeoIssueModel>::empty());
    }
    c
}

fn count_broken(links: &Vec<crate::models::Link>) -> (r: usize)
    ensures
        r == spec_broken_count(views_of(links@)),
{
    let ghost s = views_of(links@);
    let n = links.len();
    let mut c: usize = 0;
    let mut t: usize = 0;
    proof {
        assert(s.skip(0) =~= s);
    }
    while t < n
        invariant
            0 <= t <= n,
            n == links@.len(),
            s == views_of(links@),
            c <= t,
            c + spec_broken_count(s.skip(t as int)) == spec_broken_count(s),
        decreases n - t,
    {
        proof {
            assert(s.skip(t as int)[0] == links@[t as int]@);
            assert(s.skip(t as int).skip(1) =~= s.skip(t + 1));
        }
        let is_broken: bool = match links[t].status_code {
            Some(code) => code >= 400,
            None => false,
        };
        if is_broken {
            c = c + 1;
        }
        t = t + 1;
    }
    proof {
        assert(s.skip(n as int) =~= Seq::<LinkModel>::empty());
    }
    c
}

pub struct Reporter {
}

impl Reporter {
    /// Counts pages, links, broken links and issues by severity. The
    /// totals must fit the machine word.
    pub fn calculate_summary(pages: &PageMap) -> (r: CrawlSummary)
        requires
            spec_sum_links(pages@) <= usize::MAX,
            spec_sum_broken(pages@) <= usize::MAX,
            spec_sum_issues(pages@, IssueSeverity::Error) <= usize::MAX,
            spec_sum_issues(pages@, IssueSeverity::Warning) <= usize::MAX,
            spec_sum_issues(pages@, IssueSeverity::Info) <= usize::MAX,
        ensures
            spec_summary_ok(pages@, r),
    {
        let ghost m = pages@;
        let np = pages.entries.len();
        let mut total_links: usize = 0;
        let mut broken_links: usize = 0;
        let mut errors: usize = 0;
        let mut warnings: usize = 0;
        let mut infos: usize = 0;
        let mut i: usize = 0;
        proof {
            assert(m.skip(0) =~= m);
        }
        while i < np
            invariant
                0 <= i <= np,
                np == m.len(),
                np == pages@.len(),
                m == pages@,
                total_links + spec_sum_links(m.skip(i as int)) == spec_sum_links(m),
                broken_links + spec_sum_broken(m.skip(i as int)) == spec_sum_broken(m),
                errors + spec_sum_issues(m.skip(i as int), IssueSeverity::Error) == spec_sum_issues(
                    m,
                    IssueSeverity::Error,
                ),
                warnings + spec_sum_issues(m.skip(i as int), IssueSeverity::Warning)
                    == spec_sum_issues(m, IssueSeverity::Warning),
                infos + spec_sum_issues(m.skip(i as int), IssueSeverity::Info) == spec_sum_issues(
                    m,
                    IssueSeverity::Info,
                ),
                spec_sum_links(m) <= usize::MAX,
                spec_sum_broken(m) <= usize::MAX,
                spec_sum_issues(m, IssueSeverity::Error) <= usize::MAX,
                spec_sum_issues(m, IssueSeverity::Warning) <= usize::MAX,
                spec_sum_issues(m, IssueSeverity::Info) <= usize::MAX,
            decreases np - i,
        {
            let page = &pages.entries[i].1;
            proof {
                assert(m.skip(i as int)[0] == m[i as int]);
                assert(m.skip(i as int).skip(1) =~= m.skip(i + 1));
                assert(page@ == m[i as int].1);
                assert(views_of(page.links@) == m[i as int].1.links);
                assert(views_of(page.issues@) == m[i as int].1.issues);
            }
            total_links = total_links + page.links.len();
            broken_links = broken_links + count_broken(&page.links);
            errors = errors + count_issues(&page.issues, IssueSeverity::Error);
            warnings = warnings + count_issues(&page.issues, IssueSeverity::Warning);
            infos = infos + count_issues(&page.issues, IssueSeverity::Info);
            i = i + 1;
        }
        proof {
            assert(m.skip(np as int) =~= Seq::<(Seq<char>, PageModel)>::empty());
        }
        CrawlSummary { total_pages: np, total_links, broken_links, errors, warnings, infos }
    }

    /// Packages the crawl result: a copy of the pages, their summary, the
    /// seed URL and a timestamp.
    pub fn generate_report(start_url: &str, pages: &PageMap) -> (r: CrawlReport)
        requires
            spec_sum_links(pages@) <= usize::MAX,
            spec_sum_broken(pages@) <= usize::MAX,
            spec_sum_issues(pages@, IssueSeverity::Error) <= usize::MAX,
            spec_sum_issues(pages@, IssueSeverity::Warning) <= usize::MAX,
            spec_sum_issues(pages@, IssueSeverity::Info) <= usize::MAX,
        ensures
            r.start_url@ == start_url@,
            r.pages@ == pages@,
            spec_summary_ok(pages@, r.summary),
    {
        let summary = Reporter::calculate_summary(pages);
        let timestamp = now_rfc3339();
        CrawlReport {
            start_url: start_url.to_owned(),
            pages: clone_pages(pages),
            summary,
            timestamp,
        }
    }
}

} // verus!
