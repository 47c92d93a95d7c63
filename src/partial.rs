//! Partial templates, named after their file.
use crate::path::{file_stem, stem_of};
use vstd::prelude::*;

verus! {

/// A partial template and the name it is registered under.
#[derive(Debug, Clone)]
pub struct Partial {
    pub name: String,
    pub template: String,
}

/// The partial in the file at `path`: named after the file's stem.
pub fn load_partial(path: &str, template: String) -> (r: Partial)
    ensures
        r.name@ == file_stem(path@),
        r.template == template,
{
    Partial { name: stem_of(path), template }
}

} // verus!
