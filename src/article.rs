//! Articles: documents with front matter, loaded from their source text.
use crate::converter::{convert_to_html, markdown_html};
use crate::date::Date;
use crate::front_matter::{decompose_source, front_matter_of, string_views, FrontMatterError};
use crate::path::{relative_to, replace_extension, strip_root, with_extension};
use vstd::prelude::*;

verus! {

/// A loaded article.
#[derive(Clone, Debug)]
pub struct Article {
    pub title: String,
    pub date: Date,
    pub tags: Vec<String>,
    pub body: String,
    /// The HTML that the markdown converter made of the body.
    pub html: String,
    /// Where the article is published, rooted at `/`.
    pub path: String,
}

pub ghost struct ArticleView {
    pub title: Seq<char>,
    pub date: Date,
    pub tags: Seq<Seq<char>>,
    pub body: Seq<char>,
    pub html: Seq<char>,
    pub path: Seq<char>,
}

impl View for Article {
    type V = ArticleView;

    open spec fn view(&self) -> ArticleView {
        ArticleView {
            title: self.title@,
            date: self.date,
            tags: string_views(self.tags@),
            body: self.body@,
            html: self.html@,
            path: self.path@,
        }
    }
}

pub open spec fn article_views(v: Seq<Article>) -> Seq<ArticleView> {
    v.map_values(|a: Article| a@)
}

/// Why a document could not be loaded.
#[derive(Clone, Copy, Debug, PartialEq, Eq)]
pub enum LoadError {
    /// The document's front matter is malformed.
    FrontMatter(FrontMatterError),
    /// The document does not lie under its category root.
    PathDerivation,
}

/// `html`: the extension of published pages.
pub open spec fn html_ext() -> Seq<char> {
    seq!['h', 't', 'm', 'l']
}

/// Where a document under `root` is published: its path under the root,
/// with the given extension, rooted at `/`.
pub open spec fn output_path(src: Seq<char>, root: Seq<char>, ext: Seq<char>) -> Option<
    Seq<char>,
> {
    match relative_to(src, root) {
        Some(rel) => Some(seq!['/'] + with_extension(rel, ext)),
        None => None,
    }
}

/// What loading the article at `src` under `root`, with text `text`, gives.
pub open spec fn article_of(src: Seq<char>, root: Seq<char>, text: Seq<char>) -> Result<
    ArticleView,
    LoadError,
> {
    match output_path(src, root, html_ext()) {
        None => Err(LoadError::PathDerivation),
        Some(path) => match front_matter_of(text) {
            Err(e) => Err(LoadError::FrontMatter(e)),
            Ok(fm) => Ok(
                ArticleView {
                    title: fm.title,
                    date: fm.date,
                    tags: fm.tags,
                    body: fm.body,
                    html: markdown_html(fm.body),
                    path,
                },
            ),
        },
    }
}

/// Derives the published path of a document: the part of `source_path`
/// under `category_root`, with extension `ext`, rooted at `/`.
pub fn derive_output_path(source_path: &str, category_root: &str, ext: &str) -> (r: Result<
    String,
    LoadError,
>)
    ensures
        match r {
            Ok(p) => output_path(source_path@, category_root@, ext@) == Some(p@),
            Err(e) => e == LoadError::PathDerivation && output_path(
                source_path@,
                category_root@,
                ext@,
            ) is None,
        },
{
    match strip_root(source_path, category_root) {
        None => Err(LoadError::PathDerivation),
        Some(rel) => {
            let renamed = replace_extension(rel.as_str(), ext);
            let mut out = String::from_str("/");
            proof {
                reveal_strlit("/");
            }
            out.append(renamed.as_str());
            Ok(out)
        },
    }
}

/// Loads an article from its source path, its category root and its text.
/// A path outside the root is refused before the text is read.
pub fn load_article(source_path: &str, category_root: &str, source: &str) -> (r: Result<
    Article,
    LoadError,
>)
    ensures
        match r {
            Ok(a) => article_of(source_path@, category_root@, source@) == Ok::<
                ArticleView,
                LoadError,
            >(a@),
            Err(e) => article_of(source_path@, category_root@, source@) == Err::<
                ArticleView,
                LoadError,
            >(e),
        },
        relative_to(source_path@, category_root@) is None ==> r == Err::<Article, LoadError>(
            LoadError::PathDerivation,
        ),
{
    proof {
        reveal_strlit("html");
        assert("html"@ =~= html_ext());
    }
    let path = match derive_output_path(source_path, category_root, "html") {
        Ok(p) => p,
        Err(e) => return Err(e),
    };
    let fm = match decompose_source(source) {
        Ok(fm) => fm,
        Err(e) => return Err(LoadError::FrontMatter(e)),
    };
    let html = convert_to_html(fm.body.as_str());
    Ok(Article { title: fm.title, date: fm.date, tags: fm.tags, body: fm.body, html, path })
}

} // verus!
