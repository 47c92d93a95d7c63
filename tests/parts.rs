use salmon::config::{check_version, fifteen, ten, ConfigError, IndexPage, TagPage, VersionField, YearPage};
use salmon::date::Date;
use salmon::initializer::{ExampleFile, Initializer};
use salmon::page::load_page;
use salmon::partial::load_partial;
use salmon::path::{extension_of, replace_extension, stem_of, strip_root};
use salmon::resource::{general_resource, is_stylesheet, sass_resource};
use salmon::template_generator::{article_template, choose_templates, decompose_time, template_paths};
use salmon::text::text_less;

#[test]
fn page_size_defaults() {
    assert_eq!(10, ten());
    assert_eq!(15, fifteen());
    assert_eq!(10, IndexPage::default().entries_per_page);
    assert_eq!(15, YearPage::default().entries_per_page);
    assert_eq!(15, TagPage::default().entries_per_page);
}

#[test]
fn config_versions() {
    assert_eq!(Ok(()), check_version(&VersionField::Text("1".to_string())));
    assert_eq!(Err(ConfigError::UnsupportedVersion), check_version(&VersionField::Text("2".to_string())));
    assert_eq!(Err(ConfigError::NoVersion), check_version(&VersionField::Missing));
    assert_eq!(Err(ConfigError::VersionNotText), check_version(&VersionField::NotText));
}

#[test]
fn path_pieces() {
    assert_eq!("a/b/c.html", replace_extension("a/b/c.md", "html"));
    assert_eq!("a.b/c.html", replace_extension("a.b/c", "html"));
    assert_eq!("a/.hidden.css", replace_extension("a/.hidden", "css"));
    assert_eq!("c.d", stem_of("a/b/c.d.e"));
    assert_eq!(Some("rb".to_string()), extension_of("x/y.rb"));
    assert_eq!(None, extension_of("x.d/Makefile"));
    assert_eq!(Some("b/c".to_string()), strip_root("/r/b/c", "/r"));
    assert_eq!(None, strip_root("/r", "/r"));
}

#[test]
fn loaded_parts() {
    let p = load_page("/s/pages/about/me.md", "/s/pages", "*hi*".to_string()).unwrap();
    assert_eq!("about/me.md", p.path);
    assert_eq!("<p><em>hi</em></p>\n", p.html);
    assert!(load_page("/s/other/me.md", "/s/pages", String::new()).is_err());
    let q = load_partial("/s/partials/header.hbs", "<h1>".to_string());
    assert_eq!("header", q.name);
    assert!(is_stylesheet("/s/resources/css/site.sass"));
    assert!(!is_stylesheet("/s/resources/img/a.png"));
    let g = general_resource("/s/resources/img/a.png", "/s/resources").unwrap();
    assert_eq!("img/a.png", g.dest_path);
    let s = sass_resource("/s/resources/css/site.sass", "/s/resources", "body{}".to_string()).unwrap();
    assert_eq!("css/site.css", s.dest_path);
}

#[test]
fn tag_order_is_by_character() {
    assert!(text_less("Zeta", "alpha"));
    assert!(text_less("rust", "rusty"));
    assert!(!text_less("rust", "rust"));
}

#[test]
fn new_article_template() {
    let d = Date::new(2019, 6, 23).unwrap();
    assert_eq!(
        ("2019".to_string(), "06".to_string(), "23".to_string()),
        decompose_time(&d)
    );
    assert_eq!(
        "---\ntitle: my_post\ndate: 2019-06-23\ntags: diary\n---\n\n## Hopping bunnies!\n\n\u{1F407} Yay!\n",
        article_template("my_post", &d)
    );
    let p = template_paths("my_post", &d);
    assert_eq!("articles/2019/06/23", p.article_dir);
    assert_eq!("articles/2019/06/23/my_post.md", p.article_file);
    assert_eq!("codes/2019/06/23", p.code_dir);
    assert_eq!("resources/images/2019/06/23", p.image_dir);
    let all = choose_templates(false, false, false);
    assert!(all.article && all.code && all.image);
    let one = choose_templates(false, true, false);
    assert!(!one.article && one.code && !one.image);
}

#[test]
fn dates() {
    assert!(Date::new(2020, 2, 29).is_some());
    assert!(Date::new(2019, 2, 29).is_none());
    assert!(Date::new(1900, 2, 29).is_none());
    assert!(Date::new(2000, 2, 29).is_some());
    assert!(Date::new(2019, 13, 1).is_none());
    assert_eq!("2019-06-03", Date::new(2019, 6, 3).unwrap().to_text());
}

#[test]
fn scaffold_layout() {
    let entries = Initializer::new("/tmp/site".to_string()).init();
    assert_eq!(15, entries.len());
    assert_eq!(ExampleFile::Article, entries[0].file);
    assert_eq!("/tmp/site/articles/2019/06/23/example.md", entries[0].path);
    assert_eq!("/tmp/site/docker-compose.yaml", entries[14].path);
}
