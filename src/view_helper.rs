//! Values that templates compute through helpers: ISO 8601 dates and
//! absolute URLs.
use crate::code::opt_view;
use crate::date::{date_of_text, parse_date};
use vstd::prelude::*;

verus! {

/// The URL that the `url` crate resolves `path` to against `base`, if
/// `base` is a URL and the resolution succeeds.
pub uninterp spec fn resolved_url(base: Seq<char>, path: Seq<char>) -> Option<Seq<char>>;

/// Relies on `url::Url::parse` and `url::Url::join`: resolving a reference
/// against a base URL depends on the two texts alone.
#[verifier::external_body]
fn join_url(base: &str, path: &str) -> (r: Option<String>)
    ensures
        opt_view(r) == resolved_url(base@, path@),
{
    match url::Url::parse(base) {
        Ok(u) => match u.join(path) {
            Ok(j) => Some(String::from(j.as_str())),
            Err(_) => None,
        },
        Err(_) => None,
    }
}

/// Why a URL could not be built.
#[derive(Debug, Clone, Copy, PartialEq, Eq)]
pub enum UrlError {
    /// The site root is no URL, or the path cannot be resolved against it.
    Unresolvable,
}

/// The absolute URL of `path` on the site at `site_root`.
pub fn build_full_url(site_root: &str, path: &str) -> (r: Result<String, UrlError>)
    ensures
        match r {
            Ok(u) => resolved_url(site_root@, path@) == Some(u@),
            Err(e) => e == UrlError::Unresolvable && resolved_url(site_root@, path@) is None,
        },
{
    match join_url(site_root, path) {
        Some(u) => Ok(u),
        None => Err(UrlError::Unresolvable),
    }
}

/// The midnight-UTC timestamp of a `YYYY-MM-DD` date.
pub fn convert_to_iso8601(date_text: &str) -> (r: Option<String>)
    ensures
        match r {
            Some(s) => date_of_text(date_text@) matches Some(d) && s@ == d.text()
                + "T00:00:00+00:00"@,
            None => date_of_text(date_text@) is None,
        },
{
    match parse_date(date_text) {
        None => None,
        Some(d) => {
            let mut s = d.to_text();
            s.append("T00:00:00+00:00");
            Some(s)
        },
    }
}

} // verus!
