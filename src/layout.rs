//! The page templates, one per route family, tagged with the family they
//! serve.
use vstd::prelude::*;

verus! {

/// A template, tagged with the route family it is for.
#[derive(Debug, Clone)]
pub enum Layout {
    Index(String),
    Article(String),
    Tag(String),
    Year(String),
    Page(String),
    Rss(String),
}

/// A route family.
#[derive(Debug, Clone, Copy, PartialEq, Eq, Structural)]
pub enum LayoutKind {
    Index,
    Article,
    Tag,
    Year,
    Page,
    Rss,
}

impl Layout {
    pub open spec fn kind(&self) -> LayoutKind {
        match self {
            Layout::Index(_) => LayoutKind::Index,
            Layout::Article(_) => LayoutKind::Article,
            Layout::Tag(_) => LayoutKind::Tag,
            Layout::Year(_) => LayoutKind::Year,
            Layout::Page(_) => LayoutKind::Page,
            Layout::Rss(_) => LayoutKind::Rss,
        }
    }

    pub open spec fn text(&self) -> Seq<char> {
        match self {
            Layout::Index(s) => s@,
            Layout::Article(s) => s@,
            Layout::Tag(s) => s@,
            Layout::Year(s) => s@,
            Layout::Page(s) => s@,
            Layout::Rss(s) => s@,
        }
    }
}

/// The templates of all route families.
#[derive(Debug, Clone)]
pub struct Layouts {
    pub index: Layout,
    pub article: Layout,
    pub tag: Layout,
    pub year: Layout,
    pub page: Layout,
    pub rss: Layout,
}

impl Layouts {
    pub open spec fn slot(&self, k: LayoutKind) -> Layout {
        match k {
            LayoutKind::Index => self.index,
            LayoutKind::Article => self.article,
            LayoutKind::Tag => self.tag,
            LayoutKind::Year => self.year,
            LayoutKind::Page => self.page,
            LayoutKind::Rss => self.rss,
        }
    }

    /// The template for family `k`; `None` when the slot for `k` holds a
    /// template of another family.
    pub fn template(&self, k: LayoutKind) -> (r: Option<&String>)
        ensures
            match r {
                Some(s) => self.slot(k).kind() == k && s@ == self.slot(k).text(),
                None => self.slot(k).kind() != k,
            },
    {
        let l = match k {
            LayoutKind::Index => &self.index,
            LayoutKind::Article => &self.article,
            LayoutKind::Tag => &self.tag,
            LayoutKind::Year => &self.year,
            LayoutKind::Page => &self.page,
            LayoutKind::Rss => &self.rss,
        };
        match (k, l) {
            (LayoutKind::Index, Layout::Index(s)) => Some(s),
            (LayoutKind::Article, Layout::Article(s)) => Some(s),
            (LayoutKind::Tag, Layout::Tag(s)) => Some(s),
            (LayoutKind::Year, Layout::Year(s)) => Some(s),
            (LayoutKind::Page, Layout::Page(s)) => Some(s),
            (LayoutKind::Rss, Layout::Rss(s)) => Some(s),
            _ => None,
        }
    }
}

impl LayoutKind {
    pub open spec fn spec_file_name(&self) -> Seq<char> {
        match self {
            LayoutKind::Index => seq!['i', 'n', 'd', 'e', 'x', '.', 'h', 'b', 's'],
            LayoutKind::Article => seq!['a', 'r', 't', 'i', 'c', 'l', 'e', '.', 'h', 'b', 's'],
            LayoutKind::Tag => seq!['t', 'a', 'g', '.', 'h', 'b', 's'],
            LayoutKind::Year => seq!['y', 'e', 'a', 'r', '.', 'h', 'b', 's'],
            LayoutKind::Page => seq!['p', 'a', 'g', 'e', '.', 'h', 'b', 's'],
            LayoutKind::Rss => seq!['r', 's', 's', '.', 'h', 'b', 's'],
        }
    }

    /// The file under `layouts/` that holds the family's template.
    pub fn file_name(&self) -> (r: &'static str)
        ensures
            r@ == self.spec_file_name(),
    {
        let r = match self {
            LayoutKind::Index => "index.hbs",
            LayoutKind::Article => "article.hbs",
            LayoutKind::Tag => "tag.hbs",
            LayoutKind::Year => "year.hbs",
            LayoutKind::Page => "page.hbs",
            LayoutKind::Rss => "rss.hbs",
        };
        proof {
            reveal_strlit("index.hbs");
            reveal_strlit("article.hbs");
            reveal_strlit("tag.hbs");
            reveal_strlit("year.hbs");
            reveal_strlit("page.hbs");
            reveal_strlit("rss.hbs");
        }
        assert(r@ =~= self.spec_file_name());
        r
    }
}

pub fn load_index(content: String) -> (r: Layout)
    ensures
        r == Layout::Index(content),
{
    Layout::Index(content)
}

pub fn load_article(content: String) -> (r: Layout)
    ensures
        r == Layout::Article(content),
{
    Layout::Article(content)
}

pub fn load_tag(content: String) -> (r: Layout)
    ensures
        r == Layout::Tag(content),
{
    Layout::Tag(content)
}

pub fn load_year(content: String) -> (r: Layout)
    ensures
        r == Layout::Year(content),
{
    Layout::Year(content)
}

pub fn load_page(content: String) -> (r: Layout)
    ensures
        r == Layout::Page(content),
{
    Layout::Page(content)
}

pub fn load_rss(content: String) -> (r: Layout)
    ensures
        r == Layout::Rss(content),
{
    Layout::Rss(content)
}

/// The templates, each tagged with its family, from the texts of the six
/// template files.
pub fn load_layouts(
    index: String,
    article: String,
    tag: String,
    year: String,
    page: String,
    rss: String,
) -> (r: Layouts)
    ensures
        r.index == Layout::Index(index),
        r.article == Layout::Article(article),
        r.tag == Layout::Tag(tag),
        r.year == Layout::Year(year),
        r.page == Layout::Page(page),
        r.rss == Layout::Rss(rss),
{
    Layouts {
        index: load_index(index),
        article: load_article(article),
        tag: load_tag(tag),
        year: load_year(year),
        page: load_page(page),
        rss: load_rss(rss),
    }
}

} // verus!
