//! Markdown to HTML, by pulldown-cmark.
use vstd::prelude::*;

verus! {

/// The HTML that pulldown-cmark renders for a markdown text, with
/// strikethrough and tables enabled.
pub uninterp spec fn markdown_html(s: Seq<char>) -> Seq<char>;

/// Relies on `pulldown_cmark::Parser::new_ext` and `pulldown_cmark::html::push_html`:
/// the HTML is a function of the markdown text and the options alone.
#[verifier::external_body]
pub fn convert_to_html(body: &str) -> (r: String)
    ensures
        r@ == markdown_html(body@),
{
    let mut options = pulldown_cmark::Options::empty();
    options.insert(pulldown_cmark::Options::ENABLE_STRIKETHROUGH);
    options.insert(pulldown_cmark::Options::ENABLE_TABLES);
    let parser = pulldown_cmark::Parser::new_ext(body, options);
    let mut html = String::new();
    pulldown_cmark::html::push_html(&mut html, parser);
    html
}

} // verus!
