//! Data model of the crawl: pages, links, images, issues, reports, and the
//! map from normalized URL to page record, together with the mathematical
//! views the contracts are stated over.

use vstd::prelude::*;

verus! {

/// Spec-level view of an `Option<String>`.
pub open spec fn view_opt_string(o: Option<String>) -> Option<Seq<char>> {
    match o {
        Some(s) => Some(s@),
        None => None,
    }
}

#[derive(Debug, Clone, Copy, PartialEq, Eq, Structural)]
pub enum IssueSeverity {
    Error,
    Warning,
    Info,
}

#[derive(Debug, Clone, Copy, PartialEq, Eq, Structural)]
pub enum IssueType {
    MissingTitle,
    TitleTooShort,
    TitleTooLong,
    MissingMetaDescription,
    MetaDescriptionTooShort,
    MetaDescriptionTooLong,
    MissingImageAlt,
    MissingH1,
    MultipleH1,
    ThinContent,
    BrokenLink,
    Redirect,
    MissingOgTitle,
    MissingOgDescription,
    MissingOgImage,
    MissingOgUrl,
    MissingOgType,
}

#[derive(Debug)]
pub struct SeoIssue {
    pub severity: IssueSeverity,
    pub issue_type: IssueType,
    pub message: String,
}

#[verifier::ext_equal]
pub ghost struct SeoIssueModel {
    pub severity: IssueSeverity,
    pub issue_type: IssueType,
    pub message: Seq<char>,
}

impl View for SeoIssue {
    type V = SeoIssueModel;

    open spec fn view(&self) -> SeoIssueModel {
        SeoIssueModel {
            severity: self.severity,
            issue_type: self.issue_type,
            message: self.message@,
        }
    }
}

#[derive(Debug)]
pub struct Link {
    pub url: String,
    pub text: String,
    pub is_external: bool,
    pub status_code: Option<u16>,
    pub redirected_url: Option<String>,
}

#[verifier::ext_equal]
pub ghost struct LinkModel {
    pub url: Seq<char>,
    pub text: Seq<char>,
    pub is_external: bool,
    pub status_code: Option<u16>,
    pub redirected_url: Option<Seq<char>>,
}

impl View for Link {
    type V = LinkModel;

    open spec fn view(&self) -> LinkModel {
        LinkModel {
            url: self.url@,
            text: self.text@,
            is_external: self.is_external,
            status_code: self.status_code,
            redirected_url: view_opt_string(self.redirected_url),
        }
    }
}

#[derive(Debug)]
pub struct Image {
    pub src: String,
    pub alt: Option<String>,
}

#[verifier::ext_equal]
pub ghost struct ImageModel {
    pub src: Seq<char>,
    pub alt: Option<Seq<char>>,
}

impl View for Image {
    type V = ImageModel;

    open spec fn view(&self) -> ImageModel {
        ImageModel { src: self.src@, alt: view_opt_string(self.alt) }
    }
}

#[derive(Debug)]
pub struct OpenGraphTags {
    pub og_title: Option<String>,
    pub og_description: Option<String>,
    pub og_image: Option<String>,
    pub og_url: Option<String>,
    pub og_type: Option<String>,
    pub og_site_name: Option<String>,
    pub og_locale: Option<String>,
}

#[verifier::ext_equal]
pub ghost struct OpenGraphModel {
    pub og_title: Option<Seq<char>>,
    pub og_description: Option<Seq<char>>,
    pub og_image: Option<Seq<char>>,
    pub og_url: Option<Seq<char>>,
    pub og_type: Option<Seq<char>>,
    pub og_site_name: Option<Seq<char>>,
    pub og_locale: Option<Seq<char>>,
}

impl View for OpenGraphTags {
    type V = OpenGraphModel;

    open spec fn view(&self) -> OpenGraphModel {
        OpenGraphModel {
            og_title: view_opt_string(self.og_title),
            og_description: view_opt_string(self.og_description),
            og_image: view_opt_string(self.og_image),
            og_url: view_opt_string(self.og_url),
            og_type: view_opt_string(self.og_type),
            og_site_name: view_opt_string(self.og_site_name),
            og_locale: view_opt_string(self.og_locale),
        }
    }
}

impl OpenGraphTags {
    /// The record with every tag absent.
    pub open spec fn spec_empty() -> OpenGraphModel {
        OpenGraphModel {
            og_title: None,
            og_description: None,
            og_image: None,
            og_url: None,
            og_type: None,
            og_site_name: None,
            og_locale: None,
        }
    }

    pub fn empty() -> (r: OpenGraphTags)
        ensures
            r@ == Self::spec_empty(),
    {
        OpenGraphTags {
            og_title: None,
            og_description: None,
            og_image: None,
            og_url: None,
            og_type: None,
            og_site_name: None,
            og_locale: None,
        }
    }
}

impl Default for OpenGraphTags {
    fn default() -> (r: Self)
        ensures
            r@ == Self::spec_empty(),
    {
        OpenGraphTags::empty()
    }
}

#[derive(Debug)]
pub struct PageInfo {
    pub url: String,
    pub status_code: Option<u16>,
    pub content_type: Option<String>,
    pub title: Option<String>,
    pub meta_description: Option<String>,
    pub h1_tags: Vec<String>,
    pub links: Vec<Link>,
    pub images: Vec<Image>,
    pub open_graph: OpenGraphTags,
    pub issues: Vec<SeoIssue>,
    pub crawl_depth: usize,
}

#[verifier::ext_equal]
pub ghost struct PageModel {
    pub url: Seq<char>,
    pub status_code: Option<u16>,
    pub content_type: Option<Seq<char>>,
    pub title: Option<Seq<char>>,
    pub meta_description: Option<Seq<char>>,
    pub h1_tags: Seq<Seq<char>>,
    pub links: Seq<LinkModel>,
    pub images: Seq<ImageModel>,
    pub open_graph: OpenGraphModel,
    pub issues: Seq<SeoIssueModel>,
    pub crawl_depth: nat,
}

/// The views of a sequence of viewable values.
pub open spec fn views_of<T: View>(s: Seq<T>) -> Seq<T::V> {
    Seq::new(s.len(), |i: int| s[i]@)
}

pub broadcast proof fn lemma_views_of_len<T: View>(s: Seq<T>)
    ensures
        #[trigger] views_of(s).len() == s.len(),
{
}

pub broadcast proof fn lemma_views_of_index<T: View>(s: Seq<T>, i: int)
    requires
        0 <= i < s.len(),
    ensures
        #[trigger] views_of(s)[i] == s[i]@,
{
}

impl View for PageInfo {
    type V = PageModel;

    open spec fn view(&self) -> PageModel {
        PageModel {
            url: self.url@,
            status_code: self.status_code,
            content_type: view_opt_string(self.content_type),
            title: view_opt_string(self.title),
            meta_description: view_opt_string(self.meta_description),
            h1_tags: self.h1_tags.deep_view(),
            links: views_of(self.links@),
            images: views_of(self.images@),
            open_graph: self.open_graph@,
            issues: views_of(self.issues@),
            crawl_depth: self.crawl_depth as nat,
        }
    }
}

/// The result map of a crawl: normalized URL to page record, keys unique.
/// Backed by a vector so that every operation carries an exact contract.
#[derive(Debug)]
pub struct PageMap {
    pub entries: Vec<(String, PageInfo)>,
}

impl View for PageMap {
    type V = Seq<(Seq<char>, PageModel)>;

    open spec fn view(&self) -> Seq<(Seq<char>, PageModel)> {
        Seq::new(self.entries@.len(), |i: int| (self.entries@[i].0@, self.entries@[i].1@))
    }
}

impl PageMap {
    pub open spec fn contains_key_view(m: Seq<(Seq<char>, PageModel)>, k: Seq<char>) -> bool {
        exists|i: int| 0 <= i < m.len() && #[trigger] m[i].0 == k
    }

    pub open spec fn spec_contains_key(self, k: Seq<char>) -> bool {
        Self::contains_key_view(self@, k)
    }

    /// Keys are pairwise distinct.
    pub open spec fn wf(self) -> bool {
        forall|i: int, j: int| 0 <= i < j < self@.len() ==> self@[i].0 != self@[j].0
    }

    pub fn new() -> (r: Self)
        ensures
            r.wf(),
            r@ == Seq::<(Seq<char>, PageModel)>::empty(),
    {
        let r = PageMap { entries: Vec::new() };
        proof {
            assert(r@ =~= Seq::<(Seq<char>, PageModel)>::empty());
        }
        r
    }

    pub fn len(&self) -> (r: usize)
        ensures
            r == self@.len(),
    {
        self.entries.len()
    }

    /// The index holding key `k`, if any.
    pub fn find(&self, k: &str) -> (r: Option<usize>)
        ensures
            match r {
                Some(i) => 0 <= i < self@.len() && self@[i as int].0 == k@,
                None => !self.spec_contains_key(k@),
            },
    {
        let n = self.entries.len();
        let mut i: usize = 0;
        while i < n
            invariant
                0 <= i <= n,
                n == self@.len(),
                forall|j: int| 0 <= j < i ==> self@[j].0 != k@,
            decreases n - i,
        {
            if crate::text::str_eq(self.entries[i].0.as_str(), k) {
                return Some(i);
            }
            i = i + 1;
        }
        None
    }

    pub fn contains_key(&self, k: &str) -> (r: bool)
        ensures
            r == self.spec_contains_key(k@),
    {
        self.find(k).is_some()
    }

    pub fn get(&self, k: &str) -> (r: Option<&PageInfo>)
        ensures
            match r {
                Some(p) => exists|i: int|
                    0 <= i < self@.len() && #[trigger] self@[i] == (k@, p@),
                None => !self.spec_contains_key(k@),
            },
    {
        match self.find(k) {
            Some(i) => {
                let p = &self.entries[i].1;
                proof {
                    assert(self@[i as int] == (k@, p@));
                }
                Some(p)
            },
            None => None,
        }
    }

    /// Inserts `v` under `k`: replaces the record at `k`'s slot when the key
    /// is present, appends a new slot otherwise.
    pub fn insert(&mut self, k: String, v: PageInfo)
        requires
            old(self).wf(),
        ensures
            final(self).wf(),
            if old(self).spec_contains_key(k@) {
                exists|i: int|
                    0 <= i < old(self)@.len() && old(self)@[i].0 == k@ && final(self)@ == old(
                        self,
                    )@.update(i, (k@, v@))
            } else {
                final(self)@ == old(self)@.push((k@, v@))
            },
    {
        let ghost m0 = self@;
        match self.find(k.as_str()) {
            Some(i) => {
                self.entries.set(i, (k, v));
                proof {
                    let m1 = self@;
                    assert(m1 =~= m0.update(i as int, (k@, v@)));
                    assert forall|a: int, b: int| 0 <= a < b < m1.len() implies m1[a].0
                        != m1[b].0 by {
                        assert(m0[a].0 != m0[b].0);
                        assert(m0[i as int].0 == k@);
                    }
                }
            },
            None => {
                self.entries.push((k, v));
                proof {
                    let m1 = self@;
                    assert(m1 =~= m0.push((k@, v@)));
                    assert forall|a: int, b: int| 0 <= a < b < m1.len() implies m1[a].0
                        != m1[b].0 by {
                        if b < m0.len() {
                            assert(m0[a].0 != m0[b].0);
                        } else {
                            assert(m1[b].0 == k@);
                            assert(m1[a].0 == m0[a].0);
                            assert(!PageMap::contains_key_view(m0, k@));
                            assert(m0[a].0 != k@);
                        }
                    }
                }
            },
        }
    }
}

/// An exact copy of a link record.
pub fn clone_link(l: &Link) -> (r: Link)
    ensures
        r@ == l@,
{
    Link {
        url: l.url.clone(),
        text: l.text.clone(),
        is_external: l.is_external,
        status_code: l.status_code,
        redirected_url: clone_opt_string(&l.redirected_url),
    }
}

pub fn clone_opt_string(o: &Option<String>) -> (r: Option<String>)
    ensures
        view_opt_string(r) == view_opt_string(*o),
{
    match o {
        Some(s) => Some(s.clone()),
        None => None,
    }
}

pub fn clone_image(img: &Image) -> (r: Image)
    ensures
        r@ == img@,
{
    Image { src: img.src.clone(), alt: clone_opt_string(&img.alt) }
}

pub fn clone_issue(issue: &SeoIssue) -> (r: SeoIssue)
    ensures
        r@ == issue@,
{
    SeoIssue {
        severity: issue.severity,
        issue_type: issue.issue_type,
        message: issue.message.clone(),
    }
}

pub fn clone_open_graph(og: &OpenGraphTags) -> (r: OpenGraphTags)
    ensures
        r@ == og@,
{
    OpenGraphTags {
        og_title: clone_opt_string(&og.og_title),
        og_description: clone_opt_string(&og.og_description),
        og_image: clone_opt_string(&og.og_image),
        og_url: clone_opt_string(&og.og_url),
        og_type: clone_opt_string(&og.og_type),
        og_site_name: clone_opt_string(&og.og_site_name),
        og_locale: clone_opt_string(&og.og_locale),
    }
}

pub fn clone_page(p: &PageInfo) -> (r: PageInfo)
    ensures
        r@ == p@,
{
    let mut links: Vec<Link> = Vec::new();
    let mut i: usize = 0;
    let n = p.links.len();
    while i < n
        invariant
            0 <= i <= n,
            n == p.links@.len(),
            links@.len() == i,
            forall|j: int| 0 <= j < i ==> #[trigger] links@[j]@ == p.links@[j]@,
        decreases n - i,
    {
        links.push(clone_link(&p.links[i]));
        i = i + 1;
    }
    let mut images: Vec<Image> = Vec::new();
    let mut i: usize = 0;
    let n = p.images.len();
    while i < n
        invariant
            0 <= i <= n,
            n == p.images@.len(),
            images@.len() == i,
            forall|j: int| 0 <= j < i ==> #[trigger] images@[j]@ == p.images@[j]@,
        decreases n - i,
    {
        images.push(clone_image(&p.images[i]));
        i = i + 1;
    }
    let mut issues: Vec<SeoIssue> = Vec::new();
    let mut i: usize = 0;
    let n = p.issues.len();
    while i < n
        invariant
            0 <= i <= n,
            n == p.issues@.len(),
            issues@.len() == i,
            forall|j: int| 0 <= j < i ==> #[trigger] issues@[j]@ == p.issues@[j]@,
        decreases n - i,
    {
        issues.push(clone_issue(&p.issues[i]));
        i = i + 1;
    }
    let r = PageInfo {
        url: p.url.clone(),
        status_code: p.status_code,
        content_type: clone_opt_string(&p.content_type),
        title: clone_opt_string(&p.title),
        meta_description: clone_opt_string(&p.meta_description),
        h1_tags: p.h1_tags.clone(),
        links,
        images,
        open_graph: clone_open_graph(&p.open_graph),
        issues,
        crawl_depth: p.crawl_depth,
    };
    proof {
        assert(r.h1_tags.deep_view() =~= p.h1_tags.deep_view());
        assert(views_of(r.links@) =~= views_of(p.links@));
        assert(views_of(r.images@) =~= views_of(p.images@));
        assert(views_of(r.issues@) =~= views_of(p.issues@));
    }
    r
}

/// An exact copy of the whole result map.
pub fn clone_pages(m: &PageMap) -> (r: PageMap)
    ensures
        r@ == m@,
{
    let mut entries: Vec<(String, PageInfo)> = Vec::new();
    let n = m.entries.len();
    let mut i: usize = 0;
    while i < n
        invariant
            0 <= i <= n,
            n == m@.len(),
            entries@.len() == i,
            forall|j: int|
                0 <= j < i ==> #[trigger] entries@[j].0@ == m@[j].0 && entries@[j].1@ == m@[j].1,
        decreases n - i,
    {
        let key = m.entries[i].0.clone();
        let page = clone_page(&m.entries[i].1);
        entries.push((key, page));
        i = i + 1;
    }
    let r = PageMap { entries };
    proof {
        assert(r@ =~= m@);
    }
    r
}

#[derive(Debug)]
pub struct CrawlSummary {
    pub total_pages: usize,
    pub total_links: usize,
    pub broken_links: usize,
    pub errors: usize,
    pub warnings: usize,
    pub infos: usize,
}

#[derive(Debug)]
pub struct CrawlReport {
    pub start_url: String,
    pub pages: PageMap,
    pub summary: CrawlSummary,
    pub timestamp: String,
}

} // verus!
