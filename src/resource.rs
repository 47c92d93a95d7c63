//! Static assets: stylesheets to compile, and files copied as they are.
use crate::article::LoadError;
use crate::path::{extension, extension_of, relative_to, replace_extension, strip_root, with_extension};
use vstd::prelude::*;

verus! {

/// An asset and where it is placed under the destination root.
#[derive(Debug, Clone)]
pub enum Resource {
    StyleSheet(Sass),
    General(GeneralResource),
}

/// A file copied as it is.
#[derive(Debug, Clone)]
pub struct GeneralResource {
    pub src_path: String,
    pub dest_path: String,
}

/// A stylesheet and its compiled CSS.
#[derive(Debug, Clone)]
pub struct Sass {
    pub src_path: String,
    pub dest_path: String,
    pub compiled: String,
}

pub open spec fn sass_ext() -> Seq<char> {
    seq!['s', 'a', 's', 's']
}

pub open spec fn css_ext() -> Seq<char> {
    seq!['c', 's', 's']
}

/// Whether the asset at `path` is a stylesheet to compile.
pub fn is_stylesheet(path: &str) -> (r: bool)
    ensures
        r == (extension(path@) == Some(sass_ext())),
{
    let sass = String::from_str("sass");
    proof {
        reveal_strlit("sass");
        assert("sass"@ =~= sass_ext());
    }
    match extension_of(path) {
        Some(e) => e == sass,
        None => false,
    }
}

/// The asset at `src_path` under `root`, copied to the same place under the
/// destination root.
pub fn general_resource(src_path: &str, root: &str) -> (r: Result<GeneralResource, LoadError>)
    ensures
        match r {
            Ok(g) => g.src_path@ == src_path@ && relative_to(src_path@, root@) == Some(g.dest_path@),
            Err(e) => e == LoadError::PathDerivation && relative_to(src_path@, root@) is None,
        },
{
    match strip_root(src_path, root) {
        None => Err(LoadError::PathDerivation),
        Some(rel) => Ok(GeneralResource { src_path: String::from_str(src_path), dest_path: rel }),
    }
}

/// The stylesheet at `src_path` under `root`, compiled to `compiled`, placed
/// at the same place with the `css` extension.
pub fn sass_resource(src_path: &str, root: &str, compiled: String) -> (r: Result<Sass, LoadError>)
    ensures
        match r {
            Ok(s) => {
                &&& s.src_path@ == src_path@
                &&& s.compiled == compiled
                &&& relative_to(src_path@, root@) matches Some(rel)
                &&& s.dest_path@ == with_extension(rel, css_ext())
            },
            Err(e) => e == LoadError::PathDerivation && relative_to(src_path@, root@) is None,
        },
{
    proof {
        reveal_strlit("css");
        assert("css"@ =~= css_ext());
    }
    match strip_root(src_path, root) {
        None => Err(LoadError::PathDerivation),
        Some(rel) => Ok(
            Sass {
                src_path: String::from_str(src_path),
                dest_path: replace_extension(rel.as_str(), "css"),
                compiled,
            },
        ),
    }
}

} // verus!
