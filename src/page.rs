//! Static pages: markdown documents without front matter.
use crate::article::LoadError;
use crate::converter::{convert_to_html, markdown_html};
use crate::path::{relative_to, strip_root};
use vstd::prelude::*;

verus! {

/// A static page.
#[derive(Debug, Clone)]
pub struct Page {
    /// The page's path under the pages root.
    pub path: String,
    pub body: String,
    pub html: String,
}

/// Loads a static page from its path, the pages root and its text.
pub fn load_page(page_path: &str, pages_root: &str, body: String) -> (r: Result<Page, LoadError>)
    ensures
        match r {
            Ok(p) => relative_to(page_path@, pages_root@) == Some(p.path@) && p.body@ == body@
                && p.html@ == markdown_html(body@),
            Err(e) => e == LoadError::PathDerivation && relative_to(page_path@, pages_root@) is None,
        },
{
    let path = match strip_root(page_path, pages_root) {
        Some(p) => p,
        None => return Err(LoadError::PathDerivation),
    };
    let html = convert_to_html(body.as_str());
    Ok(Page { path, body, html })
}

} // verus!
