//! Code snippets that articles embed, with their highlighted HTML.
use crate::article::LoadError;
use crate::path::{extension, extension_of, relative_to, strip_root};
use crate::text::string_of;
use vstd::prelude::*;

verus! {

/// A code snippet.
#[derive(Debug, Clone)]
pub struct Code {
    /// The extension of the snippet's file, if any.
    pub ext: Option<String>,
    pub content: String,
    pub highlighted_html: String,
}

pub open spec fn opt_view(o: Option<String>) -> Option<Seq<char>> {
    match o {
        Some(s) => Some(s@),
        None => None,
    }
}

/// The snippet in the file at `path`, with its content and highlighted HTML.
pub fn load_code(path: &str, content: String, highlighted_html: String) -> (r: Code)
    ensures
        opt_view(r.ext) == extension(path@),
        r.content == content,
        r.highlighted_html == highlighted_html,
{
    Code { ext: extension_of(path), content, highlighted_html }
}

/// The key under which articles embed the snippet at `path`: its path under
/// the codes root, rooted at `/`.
pub fn code_key(path: &str, codes_root: &str) -> (r: Result<String, LoadError>)
    ensures
        match r {
            Ok(k) => {
                &&& relative_to(path@, codes_root@) matches Some(rel)
                &&& k@ == seq!['/'] + rel
            },
            Err(e) => e == LoadError::PathDerivation && relative_to(path@, codes_root@) is None,
        },
{
    match strip_root(path, codes_root) {
        None => Err(LoadError::PathDerivation),
        Some(rel) => {
            let mut k = vec!['/'];
            let rc = crate::text::chars_of(rel.as_str());
            crate::text::push_all(&mut k, &rc);
            Ok(string_of(k.as_slice()))
        },
    }
}

} // verus!
