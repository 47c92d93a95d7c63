//! Site configuration, as plain values.
use vstd::prelude::*;

verus! {

/// A loaded configuration, by format version.
#[derive(Debug)]
pub enum Config {
    V1(ConfigV1),
}

#[derive(Debug)]
pub struct ConfigV1 {
    pub version: String,
    pub blog: Blog,
}

/// The blog section of the configuration.
#[derive(Debug)]
pub struct Blog {
    /// The base URL under which the site is published.
    pub site_root: String,
    pub index_page: IndexPage,
    pub year_page: YearPage,
    pub tag_page: TagPage,
}

/// The home feed's settings.
#[derive(Debug, Clone, Copy, PartialEq, Eq)]
pub struct IndexPage {
    pub entries_per_page: u32,
}

/// The year feeds' settings.
#[derive(Debug, Clone, Copy, PartialEq, Eq)]
pub struct YearPage {
    pub entries_per_page: u32,
}

/// The tag feeds' settings.
#[derive(Debug, Clone, Copy, PartialEq, Eq)]
pub struct TagPage {
    pub entries_per_page: u32,
}

/// The home feed's default page size.
pub fn ten() -> (r: u32)
    ensures
        r == 10,
{
    10
}

/// The tag and year feeds' default page size.
pub fn fifteen() -> (r: u32)
    ensures
        r == 15,
{
    15
}

impl Default for IndexPage {
    fn default() -> (r: Self)
        ensures
            r.entries_per_page == 10,
    {
        IndexPage { entries_per_page: ten() }
    }
}

impl Default for YearPage {
    fn default() -> (r: Self)
        ensures
            r.entries_per_page == 15,
    {
        YearPage { entries_per_page: fifteen() }
    }
}

impl Default for TagPage {
    fn default() -> (r: Self)
        ensures
            r.entries_per_page == 15,
    {
        TagPage { entries_per_page: fifteen() }
    }
}

/// What the configuration text holds under `version`.
#[derive(Debug, Clone)]
pub enum VersionField {
    Missing,
    NotText,
    Text(String),
}

/// Why a configuration was refused.
#[derive(Debug, Clone, Copy, PartialEq, Eq)]
pub enum ConfigError {
    /// There is no `version` entry.
    NoVersion,
    /// The `version` entry is not a string.
    VersionNotText,
    /// The version is not one this library reads.
    UnsupportedVersion,
}

pub open spec fn version_one() -> Seq<char> {
    seq!['1']
}

/// Accepts the configuration versions that this library reads: `"1"`.
pub fn check_version(v: &VersionField) -> (r: Result<(), ConfigError>)
    ensures
        match v {
            VersionField::Missing => r == Err::<(), ConfigError>(ConfigError::NoVersion),
            VersionField::NotText => r == Err::<(), ConfigError>(ConfigError::VersionNotText),
            VersionField::Text(s) => if s@ == version_one() {
                r is Ok
            } else {
                r == Err::<(), ConfigError>(ConfigError::UnsupportedVersion)
            },
        },
{
    match v {
        VersionField::Missing => Err(ConfigError::NoVersion),
        VersionField::NotText => Err(ConfigError::VersionNotText),
        VersionField::Text(s) => {
            let one = String::from_str("1");
            proof {
                reveal_strlit("1");
                assert("1"@ =~= version_one());
            }
            if *s == one {
                Ok(())
            } else {
                Err(ConfigError::UnsupportedVersion)
            }
        },
    }
}

impl Config {
    pub open spec fn blog(&self) -> &Blog {
        match self {
            Config::V1(c) => &c.blog,
        }
    }

    /// The base URL of the site.
    pub fn site_root(&self) -> (r: &String)
        ensures
            r == self.blog().site_root,
    {
        match self {
            Config::V1(c) => &c.blog.site_root,
        }
    }
}

} // verus!
