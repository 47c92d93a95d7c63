//! What `new` writes: an article template dated today, and dated
//! directories for code snippets and images.
use crate::date::{year_text, Date};
use crate::front_matter::{serialize, serialized, FrontMatter, FrontMatterView};
use crate::path::with_extension;
use crate::text::{padded, push_padded, string_of};
use vstd::prelude::*;

verus! {

/// Which templates to create.
#[derive(Debug, Clone, Copy, PartialEq, Eq)]
pub struct TemplateChoice {
    pub article: bool,
    pub code: bool,
    pub image: bool,
}

/// Whether no template was asked for.
pub fn is_no_args(article: bool, code: bool, image: bool) -> (r: bool)
    ensures
        r == (!article && !code && !image),
{
    !article && !code && !image
}

/// The templates to create: those asked for, or all when none was.
pub fn choose_templates(article: bool, code: bool, image: bool) -> (r: TemplateChoice)
    ensures
        r.article == (article || !(article || code || image)),
        r.code == (code || !(article || code || image)),
        r.image == (image || !(article || code || image)),
{
    let all = is_no_args(article, code, image);
    TemplateChoice { article: article || all, code: code || all, image: image || all }
}

/// The year, month and day of a date as `%Y`, `%m` and `%d` write them.
pub fn decompose_time(date: &Date) -> (r: (String, String, String))
    ensures
        r.0@ == year_text(date.year as int),
        r.1@ == padded(date.month as nat, 2),
        r.2@ == padded(date.day as nat, 2),
{
    let mut y: Vec<char> = Vec::new();
    if date.year < 0 {
        y.push('-');
        let a: i64 = -(date.year as i64);
        push_padded(&mut y, a as u64, 4);
    } else if date.year > 9999 {
        y.push('+');
        crate::text::push_decimal(&mut y, date.year as u64);
    } else {
        push_padded(&mut y, date.year as u64, 4);
    }
    assert(y@ =~= year_text(date.year as int));
    let mut m: Vec<char> = Vec::new();
    push_padded(&mut m, date.month as u64, 2);
    let mut d: Vec<char> = Vec::new();
    push_padded(&mut d, date.day as u64, 2);
    assert(m@ =~= padded(date.month as nat, 2));
    assert(d@ =~= padded(date.day as nat, 2));
    (string_of(y.as_slice()), string_of(m.as_slice()), string_of(d.as_slice()))
}

/// The body of a new article.
pub open spec fn template_body() -> Seq<char> {
    "\n## Hopping bunnies!\n\n\u{1F407} Yay!\n"@
}

/// The tag of a new article.
pub open spec fn template_tag() -> Seq<char> {
    "diary"@
}

/// The text of a new article named `article_name`, dated `date`.
pub fn article_template(article_name: &str, date: &Date) -> (r: String)
    ensures
        r@ == serialized(
            FrontMatterView {
                title: article_name@,
                date: *date,
                tags: seq![template_tag()],
                body: template_body(),
            },
        ),
{
    let fm = FrontMatter {
        title: String::from_str(article_name),
        date: *date,
        tags: vec![String::from_str("diary")],
        body: String::from_str("\n## Hopping bunnies!\n\n\u{1F407} Yay!\n"),
    };
    assert(fm@.tags =~= seq![template_tag()]);
    serialize(&fm)
}

/// Where `new` puts things under a project, for a date.
#[derive(Debug, Clone)]
pub struct TemplatePaths {
    /// `articles/YYYY/MM/DD`
    pub article_dir: String,
    /// The article file in it, with the `md` extension.
    pub article_file: String,
    /// `codes/YYYY/MM/DD`
    pub code_dir: String,
    /// `resources/images/YYYY/MM/DD`
    pub image_dir: String,
}

pub open spec fn dated(prefix: Seq<char>, date: Date) -> Seq<char> {
    prefix + year_text(date.year as int) + "/"@ + padded(date.month as nat, 2) + "/"@ + padded(
        date.day as nat,
        2,
    )
}

fn dated_dir(prefix: &str, y: &String, m: &String, d: &String) -> (r: String)
    ensures
        r@ == prefix@ + y@ + "/"@ + m@ + "/"@ + d@,
{
    let mut s = String::from_str(prefix);
    s.append(y.as_str());
    s.append("/");
    s.append(m.as_str());
    s.append("/");
    s.append(d.as_str());
    s
}

/// The directories and the article file that `new` creates, relative to the
/// project directory.
pub fn template_paths(article_name: &str, date: &Date) -> (r: TemplatePaths)
    ensures
        r.article_dir@ == dated("articles/"@, *date),
        r.article_file@ == dated("articles/"@, *date) + "/"@ + with_extension(
            article_name@,
            "md"@,
        ),
        r.code_dir@ == dated("codes/"@, *date),
        r.image_dir@ == dated("resources/images/"@, *date),
{
    let (y, m, d) = decompose_time(date);
    let article_dir = dated_dir("articles/", &y, &m, &d);
    let mut article_file = String::from_str(article_dir.as_str());
    article_file.append("/");
    let name = crate::path::replace_extension(article_name, "md");
    article_file.append(name.as_str());
    TemplatePaths {
        article_dir,
        article_file,
        code_dir: dated_dir("codes/", &y, &m, &d),
        image_dir: dated_dir("resources/images/", &y, &m, &d),
    }
}

} // verus!
