//! On-page checks over the crawl result: title and meta-description
//! presence and length, H1 structure, image alt text, and a thin-content
//! heuristic, each recorded as an issue on the page.

use vstd::prelude::*;
use vstd::string::StringExecFns;

use crate::models::{
    clone_page, views_of, Image, ImageModel, IssueSeverity, IssueType, PageInfo, PageMap,
    PageModel, SeoIssue, SeoIssueModel,
};
use crate::text::{contains_seq, dec_seq, lower_seq, u64_to_string};

verus! {

broadcast use crate::models::lemma_views_of_len, crate::models::lemma_views_of_index;

/// The UTF-8 byte length of a text as `str::len` reports it, the measure
/// the length checks use.
pub open spec fn spec_byte_len(s: Seq<char>) -> nat {
    (vstd::utf8::encode_utf8(s).len() as usize) as nat
}

pub open spec fn spec_title_short_msg(n: nat) -> Seq<char> {
    "Title is too short ("@ + dec_seq(n) + " chars, recommended: 50-60)"@
}

pub open spec fn spec_title_long_msg(n: nat) -> Seq<char> {
    "Title is too long ("@ + dec_seq(n) + " chars, recommended: 50-60)"@
}

pub open spec fn spec_meta_short_msg(n: nat) -> Seq<char> {
    "Meta description is too short ("@ + dec_seq(n) + " chars, recommended: 150-160)"@
}

pub open spec fn spec_meta_long_msg(n: nat) -> Seq<char> {
    "Meta description is too long ("@ + dec_seq(n) + " chars, recommended: 150-160)"@
}

pub open spec fn spec_multiple_h1_msg(n: nat) -> Seq<char> {
    "Page has multiple H1 tags ("@ + dec_seq(n) + ")"@
}

pub open spec fn spec_missing_alt_msg(n: nat) -> Seq<char> {
    dec_seq(n) + " image(s) missing alt text"@
}

pub open spec fn spec_issue(
    severity: IssueSeverity,
    issue_type: IssueType,
    message: Seq<char>,
) -> SeoIssueModel {
    SeoIssueModel { severity: severity, issue_type: issue_type, message: message }
}

/// How many images lack alt text.
pub open spec fn spec_count_missing_alt(images: Seq<ImageModel>) -> nat
    decreases images.len(),
{
    if images.len() == 0 {
        0
    } else {
        (if images[0].alt is None {
            1nat
        } else {
            0nat
        }) + spec_count_missing_alt(images.skip(1))
    }
}

pub proof fn lemma_count_missing_alt_snoc(images: Seq<ImageModel>, x: ImageModel)
    ensures
        spec_count_missing_alt(images.push(x)) == spec_count_missing_alt(images) + (
        if x.alt is None {
            1nat
        } else {
            0nat
        }),
    decreases images.len(),
{
    let whole = images.push(x);
    if images.len() == 0 {
        assert(whole[0] == x);
        assert(images =~= Seq::<ImageModel>::empty());
        assert(whole.skip(1) =~= Seq::<ImageModel>::empty());
    } else {
        assert(whole[0] == images[0]);
        assert(whole.skip(1) =~= images.skip(1).push(x));
        lemma_count_missing_alt_snoc(images.skip(1), x);
    }
}

/// The issue a page's title raises: an error when missing or empty, a
/// warning when shorter or longer than recommended.
pub open spec fn spec_title_issues(title: Option<Seq<char>>) -> Seq<SeoIssueModel> {
    match title {
        None => seq![
            spec_issue(
                IssueSeverity::Error,
                IssueType::MissingTitle,
                "Page is missing a title tag"@,
            ),
        ],
        Some(t) => if spec_byte_len(t) == 0 {
            seq![
                spec_issue(
                    IssueSeverity::Error,
                    IssueType::MissingTitle,
                    "Page is missing a title tag"@,
                ),
            ]
        } else if spec_byte_len(t) < 50 {
            seq![
                spec_issue(
                    IssueSeverity::Warning,
                    IssueType::TitleTooShort,
                    spec_title_short_msg(spec_byte_len(t)),
                ),
            ]
        } else if spec_byte_len(t) > 60 {
            seq![
                spec_issue(
                    IssueSeverity::Warning,
                    IssueType::TitleTooLong,
                    spec_title_long_msg(spec_byte_len(t)),
                ),
            ]
        } else {
            Seq::empty()
        },
    }
}

/// The issue a page's meta description raises.
pub open spec fn spec_meta_issues(meta: Option<Seq<char>>) -> Seq<SeoIssueModel> {
    match meta {
        None => seq![
            spec_issue(
                IssueSeverity::Error,
                IssueType::MissingMetaDescription,
                "Page is missing a meta description"@,
            ),
        ],
        Some(d) => if spec_byte_len(d) == 0 {
            seq![
                spec_issue(
                    IssueSeverity::Error,
                    IssueType::MissingMetaDescription,
                    "Page is missing a meta description"@,
                ),
            ]
        } else if spec_byte_len(d) < 150 {
            seq![
                spec_issue(
                    IssueSeverity::Warning,
                    IssueType::MetaDescriptionTooShort,
                    spec_meta_short_msg(spec_byte_len(d)),
                ),
            ]
        } else if spec_byte_len(d) > 160 {
            seq![
                spec_issue(
                    IssueSeverity::Warning,
                    IssueType::MetaDescriptionTooLong,
                    spec_meta_long_msg(spec_byte_len(d)),
                ),
            ]
        } else {
            Seq::empty()
        },
    }
}

/// The issue a page's H1 count raises: missing, or more than one.
pub open spec fn spec_h1_issues(n: nat) -> Seq<SeoIssueModel> {
    if n == 0 {
        seq![
            spec_issue(IssueSeverity::Warning, IssueType::MissingH1, "Page is missing an H1 tag"@),
        ]
    } else if n > 1 {
        seq![
            spec_issue(IssueSeverity::Warning, IssueType::MultipleH1, spec_multiple_h1_msg(n)),
        ]
    } else {
        Seq::empty()
    }
}

/// The issue images without alt text raise.
pub open spec fn spec_alt_issues(images: Seq<ImageModel>) -> Seq<SeoIssueModel> {
    let alt_count = spec_count_missing_alt(images);
    if alt_count > 0 {
        seq![
            spec_issue(
                IssueSeverity::Warning,
                IssueType::MissingImageAlt,
                spec_missing_alt_msg(alt_count),
            ),
        ]
    } else {
        Seq::empty()
    }
}

/// The thin-content heuristic: fewer than five notable elements in all.
pub open spec fn spec_thin_issues(n_h1: nat, n_links: nat, n_images: nat) -> Seq<SeoIssueModel> {
    if n_h1 + n_links + n_images < 5 {
        seq![
            spec_issue(
                IssueSeverity::Warning,
                IssueType::ThinContent,
                "Page may have thin content (few elements found)"@,
            ),
        ]
    } else {
        Seq::empty()
    }
}

/// The issues one page's on-page checks raise, in check order: title,
/// meta description, H1 count, image alt text, thin content.
pub open spec fn spec_analyze_page_issues(p: PageModel) -> Seq<SeoIssueModel> {
    spec_title_issues(p.title) + spec_meta_issues(p.meta_description) + spec_h1_issues(
        p.h1_tags.len(),
    ) + spec_alt_issues(p.images) + spec_thin_issues(
        p.h1_tags.len(),
        p.links.len(),
        p.images.len(),
    )
}

/// Whether the page is subject to on-page checks: only HTML documents are.
pub open spec fn spec_is_html(p: PageModel) -> bool {
    match p.content_type {
        Some(ct) => contains_seq(lower_seq(ct), lower_seq("text/html"@)),
        None => false,
    }
}

/// One page after analysis: its issues gain the on-page findings when the
/// page is HTML, and nothing changes otherwise.
pub open spec fn spec_analyzed_page(p: PageModel) -> PageModel {
    if spec_is_html(p) {
        PageModel { issues: p.issues + spec_analyze_page_issues(p), ..p }
    } else {
        p
    }
}

/// The title check.
fn title_issues(title: &Option<String>) -> (r: Vec<SeoIssue>)
    ensures
        views_of(r@) == spec_title_issues(crate::models::view_opt_string(*title)),
{
    let mut r: Vec<SeoIssue> = Vec::new();
    match title {
        None => {
            r.push(
                SeoIssue {
                    severity: IssueSeverity::Error,
                    issue_type: IssueType::MissingTitle,
                    message: "Page is missing a title tag".to_owned(),
                },
            );
        },
        Some(t) => {
            let n = t.as_str().len();
            if n == 0 {
                r.push(
                    SeoIssue {
                        severity: IssueSeverity::Error,
                        issue_type: IssueType::MissingTitle,
                        message: "Page is missing a title tag".to_owned(),
                    },
                );
            } else if n < 50 {
                let mut msg = String::new();
                msg.append("Title is too short (");
                let digits = u64_to_string(n as u64);
                msg.append(digits.as_str());
                msg.append(" chars, recommended: 50-60)");
                proof {
                    assert(msg@ =~= spec_title_short_msg(n as nat));
                }
                r.push(
                    SeoIssue {
                        severity: IssueSeverity::Warning,
                        issue_type: IssueType::TitleTooShort,
                        message: msg,
                    },
                );
            } else if n > 60 {
                let mut msg = String::new();
                msg.append("Title is too long (");
                let digits = u64_to_string(n as u64);
                msg.append(digits.as_str());
                msg.append(" chars, recommended: 50-60)");
                proof {
                    assert(msg@ =~= spec_title_long_msg(n as nat));
                }
                r.push(
                    SeoIssue {
                        severity: IssueSeverity::Warning,
                        issue_type: IssueType::TitleTooLong,
                        message: msg,
                    },
                );
            }
        },
    }
    proof {
        assert(views_of(r@) =~~= spec_title_issues(crate::models::view_opt_string(*title)));
    }
    r
}

/// The meta-description check.
fn meta_issues(meta: &Option<String>) -> (r: Vec<SeoIssue>)
    ensures
        views_of(r@) == spec_meta_issues(crate::models::view_opt_string(*meta)),
{
    let mut r: Vec<SeoIssue> = Vec::new();
    match meta {
        None => {
            r.push(
                SeoIssue {
                    severity: IssueSeverity::Error,
                    issue_type: IssueType::MissingMetaDescription,
                    message: "Page is missing a meta description".to_owned(),
                },
            );
        },
        Some(d) => {
            let n = d.as_str().len();
            if n == 0 {
                r.push(
                    SeoIssue {
                        severity: IssueSeverity::Error,
                        issue_type: IssueType::MissingMetaDescription,
                        message: "Page is missing a meta description".to_owned(),
                    },
                );
            } else if n < 150 {
                let mut msg = String::new();
                msg.append("Meta description is too short (");
                let digits = u64_to_string(n as u64);
                msg.append(digits.as_str());
                msg.append(" chars, recommended: 150-160)");
                proof {
                    assert(msg@ =~= spec_meta_short_msg(n as nat));
                }
                r.push(
                    SeoIssue {
                        severity: IssueSeverity::Warning,
                        issue_type: IssueType::MetaDescriptionTooShort,
                        message: msg,
                    },
                );
            } else if n > 160 {
                let mut msg = String::new();
                msg.append("Meta description is too long (");
                let digits = u64_to_string(n as u64);
                msg.append(digits.as_str());
                msg.append(" chars, recommended: 150-160)");
                proof {
                    assert(msg@ =~= spec_meta_long_msg(n as nat));
                }
                r.push(
                    SeoIssue {
                        severity: IssueSeverity::Warning,
                        issue_type: IssueType::MetaDescriptionTooLong,
                        message: msg,
                    },
                );
            }
        },
    }
    proof {
        assert(views_of(r@) =~~= spec_meta_issues(crate::models::view_opt_string(*meta)));
    }
    r
}

/// The H1 check.
fn h1_issues(n: usize) -> (r: Vec<SeoIssue>)
    ensures
        views_of(r@) == spec_h1_issues(n as nat),
{
    let mut r: Vec<SeoIssue> = Vec::new();
    if n == 0 {
        r.push(
            SeoIssue {
                severity: IssueSeverity::Warning,
                issue_type: IssueType::MissingH1,
                message: "Page is missing an H1 tag".to_owned(),
            },
        );
    } else if n > 1 {
        let mut msg = String::new();
        msg.append("Page has multiple H1 tags (");
        let digits = u64_to_string(n as u64);
        msg.append(digits.as_str());
        msg.append(")");
        proof {
            assert(msg@ =~= spec_multiple_h1_msg(n as nat));
        }
        r.push(
            SeoIssue {
                severity: IssueSeverity::Warning,
                issue_type: IssueType::MultipleH1,
                message: msg,
            },
        );
    }
    proof {
        assert(views_of(r@) =~~= spec_h1_issues(n as nat));
    }
    r
}

/// The image alt-text check.
fn alt_issues(images: &Vec<Image>) -> (r: Vec<SeoIssue>)
    ensures
        views_of(r@) == spec_alt_issues(views_of(images@)),
{
    let ghost ims = views_of(images@);
    let n_img = images.len();
    let mut missing_alt: usize = 0;
    let mut t: usize = 0;
    proof {
        assert(ims.take(0) =~= Seq::<ImageModel>::empty());
    }
    while t < n_img
        invariant
            0 <= t <= n_img,
            n_img == images@.len(),
            ims == views_of(images@),
            missing_alt <= t,
            missing_alt == spec_count_missing_alt(ims.take(t as int)),
        decreases n_img - t,
    {
        proof {
            assert(ims.take(t + 1) =~= ims.take(t as int).push(ims[t as int]));
            lemma_count_missing_alt_snoc(ims.take(t as int), ims[t as int]);
            assert(images@[t as int]@ == ims[t as int]);
        }
        if images[t].alt.is_none() {
            missing_alt = missing_alt + 1;
        }
        t = t + 1;
    }
    proof {
        assert(ims.take(n_img as int) =~= ims);
    }
    let mut r: Vec<SeoIssue> = Vec::new();
    if missing_alt > 0 {
        let mut msg = String::new();
        let digits = u64_to_string(missing_alt as u64);
        msg.append(digits.as_str());
        msg.append(" image(s) missing alt text");
        proof {
            assert(msg@ =~= spec_missing_alt_msg(missing_alt as nat));
        }
        r.push(
            SeoIssue {
                severity: IssueSeverity::Warning,
                issue_type: IssueType::MissingImageAlt,
                message: msg,
            },
        );
    }
    proof {
        assert(views_of(r@) =~~= spec_alt_issues(ims));
    }
    r
}

pub struct SeoAnalyzer {
}

impl SeoAnalyzer {
    /// Appends the on-page findings of one page to its issue list: title,
    /// meta description, H1 count, image alt text, and thin content, in
    /// that order.
    pub fn analyze_page(page: &mut PageInfo)
        ensures
            final(page)@ == (PageModel {
                issues: old(page)@.issues + spec_analyze_page_issues(old(page)@),
                ..old(page)@
            }),
    {
        let ghost p0 = page@;
        let ghost i0 = views_of(page.issues@);
        let mut add_title = title_issues(&page.title);
        page.issues.append(&mut add_title);
        proof {
            assert(views_of(page.issues@) =~~= i0 + spec_title_issues(p0.title));
        }
        let ghost i1 = views_of(page.issues@);
        let mut add_meta = meta_issues(&page.meta_description);
        page.issues.append(&mut add_meta);
        proof {
            assert(views_of(page.issues@) =~~= i1 + spec_meta_issues(p0.meta_description));
        }
        let ghost i2 = views_of(page.issues@);
        let mut add_h1 = h1_issues(page.h1_tags.len());
        page.issues.append(&mut add_h1);
        proof {
            assert(views_of(page.issues@) =~~= i2 + spec_h1_issues(p0.h1_tags.len()));
        }
        let ghost i3 = views_of(page.issues@);
        let mut add_alt = alt_issues(&page.images);
        page.issues.append(&mut add_alt);
        proof {
            assert(views_of(page.issues@) =~~= i3 + spec_alt_issues(p0.images));
        }
        let ghost i4 = views_of(page.issues@);
        let a = page.h1_tags.len();
        let b = page.links.len();
        let c = page.images.len();
        let thin: bool = a < 5 && b < 5 - a && c < 5 - a - b;
        proof {
            assert(thin == (p0.h1_tags.len() + p0.links.len() + p0.images.len() < 5));
        }
        if thin {
            page.issues.push(
                SeoIssue {
                    severity: IssueSeverity::Warning,
                    issue_type: IssueType::ThinContent,
                    message: "Page may have thin content (few elements found)".to_owned(),
                },
            );
        }
        proof {
            assert(views_of(page.issues@) =~~= i4 + spec_thin_issues(
                p0.h1_tags.len(),
                p0.links.len(),
                p0.images.len(),
            ));
            assert(views_of(page.issues@) =~~= i0 + spec_analyze_page_issues(p0));
            assert(final(page)@ == (PageModel {
                issues: p0.issues + spec_analyze_page_issues(p0),
                ..p0
            }));
        }
    }

    /// Runs the on-page checks over every HTML page of the crawl result.
    pub fn analyze_pages(pages: &mut PageMap)
        requires
            old(pages).wf(),
        ensures
            final(pages).wf(),
            final(pages)@.len() == old(pages)@.len(),
            forall|i: int|
                0 <= i < old(pages)@.len() ==> final(pages)@[i] == (
                old(pages)@[i].0,
                spec_analyzed_page(old(pages)@[i].1),
            ),
    {
        let ghost m0 = pages@;
        let np = pages.entries.len();
        let mut i: usize = 0;
        while i < np
            invariant
                0 <= i <= np,
                np == m0.len(),
                np == pages@.len(),
                pages.wf(),
                forall|t: int| i <= t < np ==> pages@[t] == m0[t],
                forall|t: int| 0 <= t < i ==> pages@[t] == (m0[t].0, spec_analyzed_page(m0[t].1)),
            decreases np - i,
        {
            let mut new_page = clone_page(&pages.entries[i].1);
            let is_html: bool = match &new_page.content_type {
                Some(ct) => crate::text::contains_ignore_case(ct.as_str(), "text/html"),
                None => false,
            };
            proof {
                assert(new_page@ == m0[i as int].1);
                assert(is_html == spec_is_html(m0[i as int].1));
            }
            if is_html {
                SeoAnalyzer::analyze_page(&mut new_page);
            }
            let key = pages.entries[i].0.clone();
            let ghost before = pages@;
            pages.entries.set(i, (key, new_page));
            proof {
                assert(pages@ =~= before.update(
                    i as int,
                    (m0[i as int].0, spec_analyzed_page(m0[i as int].1)),
                ));
                assert forall|a: int, b: int| 0 <= a < b < pages@.len() implies pages@[a].0
                    != pages@[b].0 by {
                    assert(before[a].0 != before[b].0);
                    assert(pages@[a].0 == before[a].0);
                    assert(pages@[b].0 == before[b].0);
                }
            }
            i = i + 1;
        }
    }
}

} // verus!
