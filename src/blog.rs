//! The build orchestrator: for each route family, the output files to write
//! and the context each is rendered with.
use crate::article::{html_ext, Article};
use crate::code::{opt_view, Code};
use crate::config::Config;
use crate::layout::{LayoutKind, Layouts};
use crate::page::Page;
use crate::paginator::{lemma_page_exists, lemma_pages_cover, page_count, page_of, Paginator};
use crate::partial::Partial;
use crate::path::with_extension;
use crate::repository::{has_tag, ContentRepository, TagIndex, YearIndex};
use crate::resource::Resource;
use crate::text::{chars_of, copy_range, decimal, push_decimal, string_of};
use vstd::prelude::*;
use vstd::slice::slice_to_vec;

verus! {

/// A paginated route family and what selects its articles.
#[derive(Debug, Clone)]
pub enum Feed {
    Home,
    Tag(String),
    Year(i32),
}

/// A year as `i32::to_string` writes it.
pub open spec fn int_text(y: int) -> Seq<char> {
    if y < 0 {
        seq!['-'] + decimal((-y) as nat)
    } else {
        decimal(y as nat)
    }
}

/// Where page `i` (counting from 1) of a feed is written, under the
/// destination root.
pub open spec fn feed_dest(f: Feed, i: nat) -> Seq<char> {
    match f {
        Feed::Home => if i == 1 {
            "index.html"@
        } else {
            "page/"@ + decimal(i) + "/index.html"@
        },
        Feed::Tag(t) => if i == 1 {
            "tags/"@ + t@ + ".html"@
        } else {
            "tags/"@ + t@ + "/page/"@ + decimal(i) + ".html"@
        },
        Feed::Year(y) => if i == 1 {
            int_text(y as int) + ".html"@
        } else {
            int_text(y as int) + "/page/"@ + decimal(i) + ".html"@
        },
    }
}

/// The URL of page `i` (counting from 1) of a feed, as the pages link it.
pub open spec fn feed_url(f: Feed, i: nat) -> Seq<char> {
    match f {
        Feed::Home => "/page/"@ + decimal(i) + "/"@,
        Feed::Tag(t) => if i == 1 {
            "/tags/"@ + t@ + ".html"@
        } else {
            "/tags/"@ + t@ + "/page/"@ + decimal(i) + ".html"@
        },
        Feed::Year(y) => if i == 1 {
            "/"@ + int_text(y as int) + ".html"@
        } else {
            "/"@ + int_text(y as int) + "/page/"@ + decimal(i) + ".html"@
        },
    }
}

pub open spec fn feed_layout(f: Feed) -> LayoutKind {
    match f {
        Feed::Home => LayoutKind::Index,
        Feed::Tag(_) => LayoutKind::Tag,
        Feed::Year(_) => LayoutKind::Year,
    }
}

/// Where a page stands among the pages of its feed.
#[derive(Debug, Clone)]
pub struct Pagination {
    /// Counting from 1.
    pub page_number: usize,
    pub num_pages: usize,
    pub prev_page: Option<String>,
    pub next_page: Option<String>,
}

/// One output file: where it goes, its template, and its context.
#[derive(Debug, Clone)]
pub struct RoutePage {
    /// The path under the destination root.
    pub dest: String,
    pub layout: LayoutKind,
    /// The articles the page lists, as positions in the repository's store.
    pub articles: Vec<usize>,
    pub paginate: Option<Pagination>,
    pub tag_name: Option<String>,
    pub year_num: Option<i32>,
    /// The article the page shows.
    pub article: Option<usize>,
    /// The static page the page shows.
    pub page: Option<usize>,
    /// Whether the context holds the tag and year summaries and the recent
    /// articles.
    pub with_summaries: bool,
    /// Whether the context holds the code snippets.
    pub with_codes: bool,
}

/// `p` is page `i` (counting from 0) of the feed `f` over `list` in pages of
/// `size`.
pub open spec fn is_feed_page(p: RoutePage, f: Feed, list: Seq<usize>, size: nat, i: nat) -> bool {
    let n = page_count(list.len(), size);
    &&& p.dest@ == feed_dest(f, i + 1)
    &&& p.layout == feed_layout(f)
    &&& page_of(list, size, i) == Some(p.articles@)
    &&& p.paginate matches Some(pg) && {
        &&& pg.page_number == i + 1
        &&& pg.num_pages == n
        &&& opt_view(pg.prev_page) == if i + 1 > 1 {
            Some(feed_url(f, i))
        } else {
            None
        }
        &&& opt_view(pg.next_page) == if i + 1 < n {
            Some(feed_url(f, i + 2))
        } else {
            None
        }
    }
    &&& opt_view(p.tag_name) == match f {
        Feed::Tag(t) => Some(t@),
        _ => None,
    }
    &&& p.year_num == match f {
        Feed::Year(y) => Some(y),
        _ => None,
    }
    &&& p.article is None
    &&& p.page is None
    &&& p.with_summaries
    &&& p.with_codes == (f is Home)
}

/// The pages of feed `f` over `list`.
pub open spec fn is_feed(r: Seq<RoutePage>, f: Feed, list: Seq<usize>, size: nat) -> bool {
    &&& r.len() == page_count(list.len(), size)
    &&& forall|i: int| 0 <= i < r.len() ==> is_feed_page(#[trigger] r[i], f, list, size, i as nat)
}

fn decimal_string(n: u64) -> (r: String)
    ensures
        r@ == decimal(n as nat),
{
    let mut v: Vec<char> = Vec::new();
    push_decimal(&mut v, n);
    assert(v@ =~= decimal(n as nat));
    string_of(v.as_slice())
}

fn int_string(y: i32) -> (r: String)
    ensures
        r@ == int_text(y as int),
{
    let mut v: Vec<char> = Vec::new();
    if y < 0 {
        v.push('-');
        let a: i64 = -(y as i64);
        push_decimal(&mut v, a as u64);
    } else {
        push_decimal(&mut v, y as u64);
    }
    assert(v@ =~= int_text(y as int));
    string_of(v.as_slice())
}

/// `a + b + c` as one string.
fn join3(a: &str, b: &str, c: &str) -> (r: String)
    ensures
        r@ == a@ + b@ + c@,
{
    let mut s = String::from_str(a);
    s.append(b);
    s.append(c);
    s
}

/// `a + b + c + d + e` as one string.
fn join5(a: &str, b: &str, c: &str, d: &str, e: &str) -> (r: String)
    ensures
        r@ == a@ + b@ + c@ + d@ + e@,
{
    let mut s = String::from_str(a);
    s.append(b);
    s.append(c);
    s.append(d);
    s.append(e);
    s
}

fn feed_dest_of(f: &Feed, i: usize) -> (r: String)
    ensures
        r@ == feed_dest(*f, i as nat),
{
    let num = decimal_string(i as u64);
    match f {
        Feed::Home => if i == 1 {
            String::from_str("index.html")
        } else {
            join3("page/", num.as_str(), "/index.html")
        },
        Feed::Tag(t) => if i == 1 {
            join3("tags/", t.as_str(), ".html")
        } else {
            join5("tags/", t.as_str(), "/page/", num.as_str(), ".html")
        },
        Feed::Year(y) => {
            let ys = int_string(*y);
            if i == 1 {
                let mut s = String::from_str(ys.as_str());
                s.append(".html");
                s
            } else {
                let mut s = join3(ys.as_str(), "/page/", num.as_str());
                s.append(".html");
                s
            }
        },
    }
}

fn feed_url_of(f: &Feed, i: usize) -> (r: String)
    ensures
        r@ == feed_url(*f, i as nat),
{
    let num = decimal_string(i as u64);
    match f {
        Feed::Home => join3("/page/", num.as_str(), "/"),
        Feed::Tag(t) => if i == 1 {
            join3("/tags/", t.as_str(), ".html")
        } else {
            join5("/tags/", t.as_str(), "/page/", num.as_str(), ".html")
        },
        Feed::Year(y) => {
            let ys = int_string(*y);
            if i == 1 {
                join3("/", ys.as_str(), ".html")
            } else {
                join5("/", ys.as_str(), "/page/", num.as_str(), ".html")
            }
        },
    }
}

fn feed_layout_of(f: &Feed) -> (r: LayoutKind)
    ensures
        r == feed_layout(*f),
{
    match f {
        Feed::Home => LayoutKind::Index,
        Feed::Tag(_) => LayoutKind::Tag,
        Feed::Year(_) => LayoutKind::Year,
    }
}

/// The pages of a feed over `list`, `per_page` articles to a page, each with
/// its output path and pagination links.
pub fn feed_pages(list: &Vec<usize>, per_page: usize, f: &Feed) -> (r: Vec<RoutePage>)
    requires
        per_page > 0,
    ensures
        is_feed(r@, *f, list@, per_page as nat),
{
    let pager = Paginator::new(list.as_slice(), per_page);
    let n = pager.len();
    let mut r: Vec<RoutePage> = Vec::new();
    let mut i: usize = 0;
    while i < n
        invariant
            pager.items() == list@,
            pager.page_size() == per_page,
            per_page > 0,
            n == page_count(list@.len(), per_page as nat),
            i <= n,
            r.len() == i,
            forall|j: int| 0 <= j < i ==> is_feed_page(#[trigger] r@[j], *f, list@, per_page as nat, j as nat),
        decreases n - i,
    {
        proof {
            lemma_page_exists(list@.len(), per_page as nat, i as nat);
        }
        let slice = match pager.at(i) {
            Some(s) => s,
            None => {
                assert(false);
                return r;
            },
        };
        let prev = if i > 0 {
            Some(feed_url_of(f, i))
        } else {
            None
        };
        let next = if i + 1 < n {
            Some(feed_url_of(f, i + 2))
        } else {
            None
        };
        let tag_name = match f {
            Feed::Tag(t) => Some(t.clone()),
            _ => None,
        };
        let year_num = match f {
            Feed::Year(y) => Some(*y),
            _ => None,
        };
        let page = RoutePage {
            dest: feed_dest_of(f, i + 1),
            layout: feed_layout_of(f),
            articles: slice_to_vec(slice),
            paginate: Some(Pagination { page_number: i + 1, num_pages: n, prev_page: prev, next_page: next }),
            tag_name,
            year_num,
            article: None,
            page: None,
            with_summaries: true,
            with_codes: match f {
                Feed::Home => true,
                _ => false,
            },
        };
        assert(is_feed_page(page, *f, list@, per_page as nat, i as nat));
        r.push(page);
        i = i + 1;
    }
    r
}

/// Why a build stopped.
#[derive(Debug, Clone, Copy, PartialEq, Eq)]
pub enum BuildError {
    /// The template slot of the family holds a template of another family.
    InvalidLayout(LayoutKind),
    /// The family's page size is zero.
    ZeroPageSize(LayoutKind),
    /// An article's path is not rooted at `/`.
    PathDerivation,
}

/// A tag and how many articles have it.
#[derive(Debug, Clone)]
pub struct TagSummary {
    pub key: String,
    pub count: usize,
}

/// A year and how many articles are dated in it.
#[derive(Debug, Clone, Copy)]
pub struct YearSummary {
    pub year: i32,
    pub count: usize,
}

/// Everything a build writes, family by family.
#[derive(Debug, Clone)]
pub struct SitePlan {
    pub index: Vec<RoutePage>,
    pub articles: Vec<RoutePage>,
    /// One feed per tag, in the order of the tag index.
    pub tags: Vec<Vec<RoutePage>>,
    /// One feed per year, in the order of the year index.
    pub years: Vec<Vec<RoutePage>>,
    pub pages: Vec<RoutePage>,
    pub rss: RoutePage,
}

/// How many articles the recent list and the feed show.
pub const RECENT: usize = 5;

/// A loaded site: configuration, content and templates.
pub struct Blog {
    pub config: Config,
    pub repository: ContentRepository,
    pub layouts: Layouts,
    pub partials: Vec<Partial>,
    pub pages: Vec<Page>,
    /// The code snippets, by the key articles embed them with.
    pub codes: Vec<(String, Code)>,
    pub resources: Vec<Resource>,
}

pub open spec fn article_dest(path: Seq<char>) -> Option<Seq<char>> {
    if path.len() > 0 && path[0] == '/' {
        Some(path.drop_first())
    } else {
        None
    }
}

fn empty_page(dest: String, layout: LayoutKind) -> (r: RoutePage)
    ensures
        r.dest == dest,
        r.layout == layout,
        r.articles@.len() == 0,
        r.paginate is None,
        r.tag_name is None,
        r.year_num is None,
        r.article is None,
        r.page is None,
        !r.with_summaries,
        !r.with_codes,
{
    RoutePage {
        dest,
        layout,
        articles: Vec::new(),
        paginate: None,
        tag_name: None,
        year_num: None,
        article: None,
        page: None,
        with_summaries: false,
        with_codes: false,
    }
}

impl Blog {
    pub open spec fn home_size(&self) -> nat {
        self.config.blog().index_page.entries_per_page as nat
    }

    pub open spec fn tag_size(&self) -> nat {
        self.config.blog().tag_page.entries_per_page as nat
    }

    pub open spec fn year_size(&self) -> nat {
        self.config.blog().year_page.entries_per_page as nat
    }

    pub open spec fn layout_ok(&self, k: LayoutKind) -> bool {
        self.layouts.slot(k).kind() == k
    }

    /// The first of the family's checks that fails: its template, then its
    /// page size.
    pub open spec fn feed_failure(&self, k: LayoutKind, size: nat) -> Option<BuildError> {
        if !self.layout_ok(k) {
            Some(BuildError::InvalidLayout(k))
        } else if size == 0 {
            Some(BuildError::ZeroPageSize(k))
        } else {
            None
        }
    }

    /// Indexes the articles and gathers the loaded parts of the site.
    pub fn init(
        config: Config,
        articles: Vec<Article>,
        layouts: Layouts,
        partials: Vec<Partial>,
        pages: Vec<Page>,
        codes: Vec<(String, Code)>,
        resources: Vec<Resource>,
    ) -> (r: Blog)
        ensures
            r.repository.wf(),
            r.repository.articles@ == articles@,
            r.config == config,
            r.layouts == layouts,
            r.partials == partials,
            r.pages == pages,
            r.codes == codes,
            r.resources == resources,
    {
        let repository = ContentRepository::new(articles);
        Blog { config, repository, layouts, partials, pages, codes, resources }
    }

    /// The base URL of the site.
    pub fn site_root(&self) -> (r: &String)
        ensures
            r == self.config.blog().site_root,
    {
        self.config.site_root()
    }

    /// The newest articles, at most five.
    pub fn recent_articles(&self) -> (r: Vec<usize>)
        ensures
            r@ == self.repository.chronological@.take(
                if self.repository.chronological@.len() < RECENT {
                    self.repository.chronological@.len() as int
                } else {
                    RECENT as int
                },
            ),
    {
        let all = &self.repository.chronological;
        let n = if all.len() < RECENT {
            all.len()
        } else {
            RECENT
        };
        let mut r: Vec<usize> = Vec::new();
        let mut k: usize = 0;
        while k < n
            invariant
                n <= all.len(),
                k <= n,
                r@ =~= all@.take(k as int),
            decreases n - k,
        {
            r.push(all[k]);
            k = k + 1;
        }
        r
    }

    /// Each tag with the number of its articles, tags in ascending order.
    pub fn tag_summaries(&self) -> (r: Vec<TagSummary>)
        ensures
            r.len() == self.repository.by_tag.len(),
            forall|p: int|
                0 <= p < r.len() ==> #[trigger] r@[p].key@ == self.repository.by_tag@[p].tag@
                    && r@[p].count == self.repository.by_tag@[p].articles.len(),
    {
        let g = &self.repository.by_tag;
        let mut r: Vec<TagSummary> = Vec::new();
        let mut k: usize = 0;
        while k < g.len()
            invariant
                k <= g.len(),
                r.len() == k,
                forall|p: int|
                    0 <= p < k ==> #[trigger] r@[p].key@ == g@[p].tag@ && r@[p].count == g@[p].articles.len(),
            decreases g.len() - k,
        {
            r.push(TagSummary { key: g[k].tag.clone(), count: g[k].articles.len() });
            k = k + 1;
        }
        r
    }

    /// Each year with the number of its articles, latest year first.
    pub fn year_summaries(&self) -> (r: Vec<YearSummary>)
        ensures
            r.len() == self.repository.by_year.len(),
            forall|p: int|
                0 <= p < r.len() ==> #[trigger] r@[p].year == self.repository.by_year@[p].year
                    && r@[p].count == self.repository.by_year@[p].articles.len(),
    {
        let g = &self.repository.by_year;
        let mut r: Vec<YearSummary> = Vec::new();
        let mut k: usize = 0;
        while k < g.len()
            invariant
                k <= g.len(),
                r.len() == k,
                forall|p: int|
                    0 <= p < k ==> #[trigger] r@[p].year == g@[p].year && r@[p].count == g@[p].articles.len(),
            decreases g.len() - k,
        {
            r.push(YearSummary { year: g[k].year, count: g[k].articles.len() });
            k = k + 1;
        }
        r
    }

    fn check_feed(&self, k: LayoutKind, size: u32) -> (r: Result<(), BuildError>)
        ensures
            match r {
                Ok(_) => self.feed_failure(k, size as nat) is None,
                Err(e) => self.feed_failure(k, size as nat) == Some(e),
            },
    {
        if self.layouts.template(k).is_none() {
            return Err(BuildError::InvalidLayout(k));
        }
        if size == 0 {
            return Err(BuildError::ZeroPageSize(k));
        }
        Ok(())
    }

    fn sizes(&self) -> (r: (u32, u32, u32))
        ensures
            r.0 == self.home_size(),
            r.1 == self.tag_size(),
            r.2 == self.year_size(),
    {
        match &self.config {
            Config::V1(c) => (
                c.blog.index_page.entries_per_page,
                c.blog.tag_page.entries_per_page,
                c.blog.year_page.entries_per_page,
            ),
        }
    }

    /// The home feed over all articles, newest first.
    pub fn index_routes(&self) -> (r: Result<Vec<RoutePage>, BuildError>)
        ensures
            match r {
                Ok(v) => self.feed_failure(LayoutKind::Index, self.home_size()) is None && is_feed(
                    v@,
                    Feed::Home,
                    self.repository.chronological@,
                    self.home_size(),
                ),
                Err(e) => self.feed_failure(LayoutKind::Index, self.home_size()) == Some(e),
            },
    {
        let (home, _, _) = self.sizes();
        match self.check_feed(LayoutKind::Index, home) {
            Err(e) => Err(e),
            Ok(_) => Ok(feed_pages(&self.repository.chronological, home as usize, &Feed::Home)),
        }
    }

    /// One feed per tag, in the order of the tag index.
    pub fn tag_routes(&self) -> (r: Result<Vec<Vec<RoutePage>>, BuildError>)
        ensures
            match r {
                Ok(v) => {
                    &&& self.feed_failure(LayoutKind::Tag, self.tag_size()) is None
                    &&& v.len() == self.repository.by_tag.len()
                    &&& forall|p: int|
                        0 <= p < v.len() ==> is_feed(
                            #[trigger] v@[p]@,
                            Feed::Tag(self.repository.by_tag@[p].tag),
                            self.repository.by_tag@[p].articles@,
                            self.tag_size(),
                        )
                },
                Err(e) => self.feed_failure(LayoutKind::Tag, self.tag_size()) == Some(e),
            },
    {
        let (_, size, _) = self.sizes();
        if let Err(e) = self.check_feed(LayoutKind::Tag, size) {
            return Err(e);
        }
        let g = &self.repository.by_tag;
        let mut v: Vec<Vec<RoutePage>> = Vec::new();
        let mut k: usize = 0;
        while k < g.len()
            invariant
                size > 0,
                size == self.tag_size(),
                g == &self.repository.by_tag,
                k <= g.len(),
                v.len() == k,
                forall|p: int|
                    0 <= p < k ==> is_feed(
                        #[trigger] v@[p]@,
                        Feed::Tag(g@[p].tag),
                        g@[p].articles@,
                        size as nat,
                    ),
            decreases g.len() - k,
        {
            let f = Feed::Tag(g[k].tag.clone());
            v.push(feed_pages(&g[k].articles, size as usize, &f));
            k = k + 1;
        }
        Ok(v)
    }

    /// One feed per year, in the order of the year index.
    pub fn year_routes(&self) -> (r: Result<Vec<Vec<RoutePage>>, BuildError>)
        ensures
            match r {
                Ok(v) => {
                    &&& self.feed_failure(LayoutKind::Year, self.year_size()) is None
                    &&& v.len() == self.repository.by_year.len()
                    &&& forall|p: int|
                        0 <= p < v.len() ==> is_feed(
                            #[trigger] v@[p]@,
                            Feed::Year(self.repository.by_year@[p].year),
                            self.repository.by_year@[p].articles@,
                            self.year_size(),
                        )
                },
                Err(e) => self.feed_failure(LayoutKind::Year, self.year_size()) == Some(e),
            },
    {
        let (_, _, size) = self.sizes();
        if let Err(e) = self.check_feed(LayoutKind::Year, size) {
            return Err(e);
        }
        let g = &self.repository.by_year;
        let mut v: Vec<Vec<RoutePage>> = Vec::new();
        let mut k: usize = 0;
        while k < g.len()
            invariant
                size > 0,
                size == self.year_size(),
                g == &self.repository.by_year,
                k <= g.len(),
                v.len() == k,
                forall|p: int|
                    0 <= p < k ==> is_feed(
                        #[trigger] v@[p]@,
                        Feed::Year(g@[p].year),
                        g@[p].articles@,
                        size as nat,
                    ),
            decreases g.len() - k,
        {
            let f = Feed::Year(g[k].year);
            v.push(feed_pages(&g[k].articles, size as usize, &f));
            k = k + 1;
        }
        Ok(v)
    }

    /// All articles' paths are rooted at `/`.
    pub open spec fn paths_rooted(&self) -> bool {
        forall|i: int|
            0 <= i < self.repository.articles@.len() ==> article_dest(
                #[trigger] self.repository.articles@[i].path@,
            ) is Some
    }

    /// One page per article, newest first, at the article's path.
    pub fn article_routes(&self) -> (r: Result<Vec<RoutePage>, BuildError>)
        requires
            self.repository.wf(),
        ensures
            match r {
                Ok(v) => {
                    &&& self.layout_ok(LayoutKind::Article)
                    &&& v.len() == self.repository.chronological.len()
                    &&& forall|k: int|
                        0 <= k < v.len() ==> {
                            let i = self.repository.chronological@[k];
                            &&& Some((#[trigger] v@[k]).dest@) == article_dest(
                                self.repository.articles@[i as int].path@,
                            )
                            &&& v@[k].layout == LayoutKind::Article
                            &&& v@[k].article == Some(i)
                            &&& v@[k].articles@.len() == 0
                            &&& v@[k].paginate is None
                            &&& v@[k].page is None
                            &&& v@[k].with_summaries
                            &&& v@[k].with_codes
                        }
                },
                Err(e) => if !self.layout_ok(LayoutKind::Article) {
                    e == BuildError::InvalidLayout(LayoutKind::Article)
                } else {
                    e == BuildError::PathDerivation && !self.paths_rooted()
                },
            },
    {
        if self.layouts.template(LayoutKind::Article).is_none() {
            return Err(BuildError::InvalidLayout(LayoutKind::Article));
        }
        let chron = &self.repository.chronological;
        let arts = &self.repository.articles;
        proof {
            assert forall|m: int| 0 <= m < chron.len() implies chron@[m] < arts.len() by {
                assert(chron@.contains(chron@[m]));
            }
        }
        let mut v: Vec<RoutePage> = Vec::new();
        let mut k: usize = 0;
        while k < chron.len()
            invariant
                self.layout_ok(LayoutKind::Article),
                forall|m: int| 0 <= m < chron.len() ==> chron@[m] < arts.len(),
                chron == &self.repository.chronological,
                arts == &self.repository.articles,
                k <= chron.len(),
                v.len() == k,
                forall|k2: int|
                    0 <= k2 < k ==> {
                        let i = chron@[k2];
                        &&& Some((#[trigger] v@[k2]).dest@) == article_dest(arts@[i as int].path@)
                        &&& v@[k2].layout == LayoutKind::Article
                        &&& v@[k2].article == Some(i)
                        &&& v@[k2].articles@.len() == 0
                        &&& v@[k2].paginate is None
                        &&& v@[k2].page is None
                        &&& v@[k2].with_summaries
                        &&& v@[k2].with_codes
                    },
            decreases chron.len() - k,
        {
            let i = chron[k];
            let p = chars_of(arts[i].path.as_str());
            if p.len() == 0 || p[0] != '/' {
                proof {
                    assert(article_dest(self.repository.articles@[i as int].path@) is None);
                }
                return Err(BuildError::PathDerivation);
            }
            let dest = string_of(copy_range(&p, 1, p.len()).as_slice());
            assert(dest@ =~= p@.drop_first());
            let mut page = empty_page(dest, LayoutKind::Article);
            page.article = Some(i);
            page.with_summaries = true;
            page.with_codes = true;
            v.push(page);
            k = k + 1;
        }
        Ok(v)
    }

    /// One page per static page, at the page's path with the `html`
    /// extension.
    pub fn general_page_routes(&self) -> (r: Result<Vec<RoutePage>, BuildError>)
        ensures
            match r {
                Ok(v) => {
                    &&& self.layout_ok(LayoutKind::Page)
                    &&& v.len() == self.pages.len()
                    &&& forall|k: int|
                        0 <= k < v.len() ==> {
                            &&& (#[trigger] v@[k]).dest@ == with_extension(self.pages@[k].path@, html_ext())
                            &&& v@[k].layout == LayoutKind::Page
                            &&& v@[k].page == Some(k as usize)
                            &&& v@[k].article is None
                            &&& v@[k].paginate is None
                            &&& !v@[k].with_summaries
                            &&& !v@[k].with_codes
                        }
                },
                Err(e) => e == BuildError::InvalidLayout(LayoutKind::Page) && !self.layout_ok(
                    LayoutKind::Page,
                ),
            },
    {
        if self.layouts.template(LayoutKind::Page).is_none() {
            return Err(BuildError::InvalidLayout(LayoutKind::Page));
        }
        proof {
            reveal_strlit("html");
            assert("html"@ =~= html_ext());
        }
        let mut v: Vec<RoutePage> = Vec::new();
        let mut k: usize = 0;
        while k < self.pages.len()
            invariant
                "html"@ == html_ext(),
                k <= self.pages.len(),
                v.len() == k,
                forall|k2: int|
                    0 <= k2 < k ==> {
                        &&& (#[trigger] v@[k2]).dest@ == with_extension(self.pages@[k2].path@, html_ext())
                        &&& v@[k2].layout == LayoutKind::Page
                        &&& v@[k2].page == Some(k2 as usize)
                        &&& v@[k2].article is None
                        &&& v@[k2].paginate is None
                        &&& !v@[k2].with_summaries
                        &&& !v@[k2].with_codes
                    },
            decreases self.pages.len() - k,
        {
            let dest = crate::path::replace_extension(self.pages[k].path.as_str(), "html");
            let mut page = empty_page(dest, LayoutKind::Page);
            page.page = Some(k);
            v.push(page);
            k = k + 1;
        }
        Ok(v)
    }

    /// The syndication feed: one file with the newest articles.
    pub fn rss_route(&self) -> (r: Result<RoutePage, BuildError>)
        ensures
            match r {
                Ok(p) => {
                    &&& self.layout_ok(LayoutKind::Rss)
                    &&& p.dest@ == "feed.xml"@
                    &&& p.layout == LayoutKind::Rss
                    &&& p.articles@ == self.repository.chronological@.take(
                        if self.repository.chronological@.len() < RECENT {
                            self.repository.chronological@.len() as int
                        } else {
                            RECENT as int
                        },
                    )
                    &&& p.paginate is None
                    &&& p.article is None
                    &&& p.page is None
                    &&& !p.with_summaries
                    &&& !p.with_codes
                },
                Err(e) => e == BuildError::InvalidLayout(LayoutKind::Rss) && !self.layout_ok(
                    LayoutKind::Rss,
                ),
            },
    {
        if self.layouts.template(LayoutKind::Rss).is_none() {
            return Err(BuildError::InvalidLayout(LayoutKind::Rss));
        }
        let mut page = empty_page(String::from_str("feed.xml"), LayoutKind::Rss);
        page.articles = self.recent_articles();
        Ok(page)
    }

    /// The failure that stops a build: the first family, in the order home,
    /// articles, tags, years, static pages, feed, whose checks fail.
    pub open spec fn first_failure(&self) -> Option<BuildError> {
        if self.feed_failure(LayoutKind::Index, self.home_size()) is Some {
            self.feed_failure(LayoutKind::Index, self.home_size())
        } else if !self.layout_ok(LayoutKind::Article) {
            Some(BuildError::InvalidLayout(LayoutKind::Article))
        } else if !self.paths_rooted() {
            Some(BuildError::PathDerivation)
        } else if self.feed_failure(LayoutKind::Tag, self.tag_size()) is Some {
            self.feed_failure(LayoutKind::Tag, self.tag_size())
        } else if self.feed_failure(LayoutKind::Year, self.year_size()) is Some {
            self.feed_failure(LayoutKind::Year, self.year_size())
        } else if !self.layout_ok(LayoutKind::Page) {
            Some(BuildError::InvalidLayout(LayoutKind::Page))
        } else if !self.layout_ok(LayoutKind::Rss) {
            Some(BuildError::InvalidLayout(LayoutKind::Rss))
        } else {
            None
        }
    }

    /// The whole site: the families in the order home, articles, tags,
    /// years, static pages, feed; the first family that fails stops the
    /// build.
    pub fn build(&self) -> (r: Result<SitePlan, BuildError>)
        requires
            self.repository.wf(),
        ensures
            match r {
                Ok(plan) => {
                    &&& self.first_failure() is None
                    &&& is_feed(plan.index@, Feed::Home, self.repository.chronological@, self.home_size())
                    &&& plan.articles.len() == self.repository.chronological.len()
                    &&& forall|k: int|
                        0 <= k < plan.articles.len() ==> {
                            let i = self.repository.chronological@[k];
                            &&& Some((#[trigger] plan.articles@[k]).dest@) == article_dest(
                                self.repository.articles@[i as int].path@,
                            )
                            &&& plan.articles@[k].layout == LayoutKind::Article
                            &&& plan.articles@[k].article == Some(i)
                        }
                    &&& plan.tags.len() == self.repository.by_tag.len()
                    &&& forall|p: int|
                        0 <= p < plan.tags.len() ==> is_feed(
                            #[trigger] plan.tags@[p]@,
                            Feed::Tag(self.repository.by_tag@[p].tag),
                            self.repository.by_tag@[p].articles@,
                            self.tag_size(),
                        )
                    &&& plan.years.len() == self.repository.by_year.len()
                    &&& forall|p: int|
                        0 <= p < plan.years.len() ==> is_feed(
                            #[trigger] plan.years@[p]@,
                            Feed::Year(self.repository.by_year@[p].year),
                            self.repository.by_year@[p].articles@,
                            self.year_size(),
                        )
                    &&& plan.pages.len() == self.pages.len()
                    &&& forall|k: int|
                        0 <= k < plan.pages.len() ==> (#[trigger] plan.pages@[k]).dest@
                            == with_extension(self.pages@[k].path@, html_ext())
                            && plan.pages@[k].page == Some(k as usize)
                    &&& plan.rss.dest@ == "feed.xml"@
                    &&& plan.rss.articles@ == self.repository.chronological@.take(
                        if self.repository.chronological@.len() < RECENT {
                            self.repository.chronological@.len() as int
                        } else {
                            RECENT as int
                        },
                    )
                },
                Err(e) => self.first_failure() == Some(e),
            },
    {
        let index = match self.index_routes() {
            Ok(v) => v,
            Err(e) => return Err(e),
        };
        let articles = match self.article_routes() {
            Ok(v) => v,
            Err(e) => return Err(e),
        };
        proof {
            assert forall|i: int| 0 <= i < self.repository.articles@.len() implies article_dest(
                #[trigger] self.repository.articles@[i].path@,
            ) is Some by {
                assert(i < self.repository.articles.len());
                assert(self.repository.chronological@.contains(i as usize));
                let k = choose|k: int|
                    0 <= k < self.repository.chronological@.len()
                        && self.repository.chronological@[k] == i as usize;
                assert(Some(articles@[k].dest@) == article_dest(
                    self.repository.articles@[i].path@,
                ));
            }
        }
        let tags = match self.tag_routes() {
            Ok(v) => v,
            Err(e) => return Err(e),
        };
        let years = match self.year_routes() {
            Ok(v) => v,
            Err(e) => return Err(e),
        };
        let pages = match self.general_page_routes() {
            Ok(v) => v,
            Err(e) => return Err(e),
        };
        let rss = match self.rss_route() {
            Ok(p) => p,
            Err(e) => return Err(e),
        };
        Ok(SitePlan { index, articles, tags, years, pages, rss })
    }
}

/// An article is listed on some page of the feed of a tag exactly when it
/// has that tag: an article tagged `a` and `b` shows in the feeds of `a`
/// and `b`, and in no other tag's feed.
pub proof fn lemma_tag_feed_membership(blog: &Blog, feeds: Seq<Vec<RoutePage>>, p: int, x: usize)
    requires
        blog.repository.wf(),
        blog.tag_size() > 0,
        feeds.len() == blog.repository.by_tag.len(),
        forall|q: int|
            0 <= q < feeds.len() ==> is_feed(
                #[trigger] feeds[q]@,
                Feed::Tag(blog.repository.by_tag@[q].tag),
                blog.repository.by_tag@[q].articles@,
                blog.tag_size(),
            ),
        0 <= p < feeds.len(),
    ensures
        (exists|i: int| 0 <= i < feeds[p]@.len() && (#[trigger] feeds[p]@[i]).articles@.contains(x))
            <==> (x < blog.repository.articles.len() && has_tag(
            blog.repository.articles@[x as int]@,
            blog.repository.by_tag@[p].tag@,
        )),
{
    let list = blog.repository.by_tag@[p].articles@;
    let size = blog.tag_size();
    let pages = feeds[p]@;
    assert(is_feed(pages, Feed::Tag(blog.repository.by_tag@[p].tag), list, size));
    lemma_pages_cover(list, size, x);
    assert(crate::article::article_views(blog.repository.articles@).len() == blog.repository.articles.len());
    if x < blog.repository.articles.len() {
        assert(crate::article::article_views(blog.repository.articles@)[x as int]
            == blog.repository.articles@[x as int]@);
    }
    assert(list.contains(x) <==> (x < blog.repository.articles.len() && has_tag(
        blog.repository.articles@[x as int]@,
        blog.repository.by_tag@[p].tag@,
    )));
    if exists|i: int| 0 <= i < pages.len() && (#[trigger] pages[i]).articles@.contains(x) {
        let i = choose|i: int| 0 <= i < pages.len() && (#[trigger] pages[i]).articles@.contains(x);
        assert(is_feed_page(pages[i], Feed::Tag(blog.repository.by_tag@[p].tag), list, size, i as nat));
        assert(page_of(list, size, i as nat) matches Some(w) && w.contains(x));
    }
    if list.contains(x) {
        let i = choose|i: nat| #[trigger] page_of(list, size, i) matches Some(w) && w.contains(x);
        lemma_page_exists(list.len(), size, i);
        assert(i < pages.len());
        assert(is_feed_page(pages[i as int], Feed::Tag(blog.repository.by_tag@[p].tag), list, size, i));
        assert(pages[i as int].articles@.contains(x));
    }
}

} // verus!
