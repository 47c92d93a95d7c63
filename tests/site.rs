use salmon::article::{load_article, Article, LoadError};
use salmon::blog::{Blog, BuildError, RoutePage};
use salmon::code::code_key;
use salmon::config::{self, Config, ConfigV1, IndexPage, TagPage, YearPage};
use salmon::layout::{load_layouts, Layout, LayoutKind};
use salmon::repository::ContentRepository;

fn article(name: &str, date: &str, tags: &str) -> Article {
    let text = format!("---\ntitle: {}\ndate: {}\ntags: {}\n---\n## {}\n", name, date, tags, name);
    let path = format!("/src/articles/{}.md", name);
    load_article(&path, "/src/articles", &text).unwrap()
}

fn config(home: u32) -> Config {
    Config::V1(ConfigV1 {
        version: "1".to_string(),
        blog: config::Blog {
            site_root: "https://example.com".to_string(),
            index_page: IndexPage { entries_per_page: home },
            year_page: YearPage::default(),
            tag_page: TagPage::default(),
        },
    })
}

fn layouts() -> salmon::layout::Layouts {
    load_layouts(
        "i".to_string(),
        "a".to_string(),
        "t".to_string(),
        "y".to_string(),
        "p".to_string(),
        "r".to_string(),
    )
}

fn blog(articles: Vec<Article>, home: u32) -> Blog {
    Blog::init(config(home), articles, layouts(), Vec::new(), Vec::new(), Vec::new(), Vec::new())
}

fn twelve_articles() -> Vec<Article> {
    let mut v = Vec::new();
    for k in 1..=7 {
        v.push(article(&format!("a{}", k), &format!("2019-03-{:02}", k), "diary"));
    }
    for k in 1..=5 {
        v.push(article(&format!("b{}", k), &format!("2018-11-{:02}", k), "rust"));
    }
    v
}

#[test]
fn article_path_is_derived_from_its_source_path() {
    let a = article("hello", "2019-06-23", "x");
    assert_eq!("/hello.html", a.path);
    let text = "---\ntitle: t\ndate: 2019-06-23\ntags: x\n---\n";
    let b = load_article("/src/articles/2019/06/note.txt.md", "/src/articles", text).unwrap();
    assert_eq!("/2019/06/note.txt.html", b.path);
}

#[test]
fn article_html_is_rendered_from_markdown() {
    let a = article("hello", "2019-06-23", "x");
    assert_eq!("## hello\n", a.body);
    assert_eq!("<h2>hello</h2>\n", a.html);
}

#[test]
fn document_outside_its_root_is_refused() {
    let text = "---\ntitle: t\ndate: 2019-06-23\ntags: x\n---\n";
    assert_eq!(
        LoadError::PathDerivation,
        load_article("/src/pages/a.md", "/src/articles", text).unwrap_err()
    );
    assert_eq!(
        LoadError::PathDerivation,
        load_article("/src/articles-old/a.md", "/src/articles", text).unwrap_err()
    );
    // The path is checked before the text.
    assert_eq!(LoadError::PathDerivation, load_article("/elsewhere/a.md", "/src/articles", "").unwrap_err());
    assert_eq!(Err(LoadError::PathDerivation), code_key("/x/y.rb", "/src/codes"));
    assert_eq!(Ok("/2019/y.rb".to_string()), code_key("/src/codes/2019/y.rb", "/src/codes"));
}

#[test]
fn repository_indices() {
    let arts = vec![
        article("old", "2018-01-01", "rust diary"),
        article("new", "2019-05-05", "rust rust"),
        article("mid", "2018-06-06", "life"),
        article("same", "2019-05-05", "diary"),
    ];
    let repo = ContentRepository::new(arts);
    assert_eq!(vec![1, 3, 2, 0], repo.chronological);
    let tags: Vec<(String, Vec<usize>)> =
        repo.by_tag.iter().map(|t| (t.tag.clone(), t.articles.clone())).collect();
    assert_eq!(
        vec![
            ("diary".to_string(), vec![3, 0]),
            ("life".to_string(), vec![2]),
            ("rust".to_string(), vec![1, 0]),
        ],
        tags
    );
    let years: Vec<(i32, Vec<usize>)> =
        repo.by_year.iter().map(|y| (y.year, y.articles.clone())).collect();
    assert_eq!(vec![(2019, vec![1, 3]), (2018, vec![2, 0])], years);
}

#[test]
fn empty_repository() {
    let repo = ContentRepository::new(Vec::new());
    assert!(repo.chronological.is_empty());
    assert!(repo.by_tag.is_empty());
    assert!(repo.by_year.is_empty());
}

fn dests(v: &[RoutePage]) -> Vec<String> {
    v.iter().map(|p| p.dest.clone()).collect()
}

#[test]
fn home_feed_of_twelve_articles() {
    let b = blog(twelve_articles(), 10);
    let index = b.index_routes().unwrap();
    assert_eq!(vec!["index.html".to_string(), "page/2/index.html".to_string()], dests(&index));
    let first = index[0].paginate.as_ref().unwrap();
    assert_eq!((1, 2), (first.page_number, first.num_pages));
    assert_eq!(None, first.prev_page);
    assert_eq!(Some("/page/2/".to_string()), first.next_page);
    let second = index[1].paginate.as_ref().unwrap();
    assert_eq!((2, 2), (second.page_number, second.num_pages));
    assert_eq!(None, second.next_page);
    assert_eq!(Some("/page/1/".to_string()), second.prev_page);
    assert_eq!(10, index[0].articles.len());
    assert_eq!(2, index[1].articles.len());
    assert!(index[0].with_summaries && index[0].with_codes);
}

#[test]
fn year_feeds_and_summaries() {
    let b = blog(twelve_articles(), 10);
    let years = b.year_routes().unwrap();
    assert_eq!(2, years.len());
    assert_eq!(vec!["2019.html".to_string()], dests(&years[0]));
    assert_eq!(Some(2019), years[0][0].year_num);
    assert_eq!(vec!["2018.html".to_string()], dests(&years[1]));
    let summary: Vec<(i32, usize)> = b.year_summaries().iter().map(|y| (y.year, y.count)).collect();
    assert_eq!(vec![(2019, 7), (2018, 5)], summary);
    let tags: Vec<(String, usize)> =
        b.tag_summaries().iter().map(|t| (t.key.clone(), t.count)).collect();
    assert_eq!(vec![("diary".to_string(), 7), ("rust".to_string(), 5)], tags);
}

#[test]
fn tag_feed_pages_link_each_other() {
    let mut v = Vec::new();
    for k in 1..=20 {
        v.push(article(&format!("p{}", k), &format!("2020-01-{:02}", k), "rust"));
    }
    let b = blog(v, 10);
    let tags = b.tag_routes().unwrap();
    assert_eq!(1, tags.len());
    let rust = &tags[0];
    assert_eq!(
        vec!["tags/rust.html".to_string(), "tags/rust/page/2.html".to_string()],
        dests(rust)
    );
    let first = rust[0].paginate.as_ref().unwrap();
    assert_eq!(Some("/tags/rust/page/2.html".to_string()), first.next_page);
    let second = rust[1].paginate.as_ref().unwrap();
    assert_eq!(Some("/tags/rust.html".to_string()), second.prev_page);
    assert_eq!(None, second.next_page);
    assert_eq!(Some("rust".to_string()), rust[0].tag_name);
    assert!(rust[0].with_summaries && !rust[0].with_codes);
    assert_eq!(15, rust[0].articles.len());
    assert_eq!(5, rust[1].articles.len());
}

#[test]
fn article_appears_in_each_of_its_tags_only() {
    let arts = vec![
        article("both", "2019-05-05", "diary rust"),
        article("other", "2019-05-06", "life"),
    ];
    let b = blog(arts, 10);
    let tags = b.tag_routes().unwrap();
    let mut holding = Vec::new();
    for feed in &tags {
        for page in feed {
            if page.articles.contains(&0) {
                holding.push(page.dest.clone());
            }
        }
    }
    assert_eq!(vec!["tags/diary.html".to_string(), "tags/rust.html".to_string()], holding);
}

#[test]
fn article_and_feed_routes() {
    let b = blog(twelve_articles(), 10);
    let arts = b.article_routes().unwrap();
    assert_eq!(12, arts.len());
    assert_eq!("a7.html", arts[0].dest);
    assert_eq!(Some(6), arts[0].article);
    assert!(arts[0].with_summaries && arts[0].with_codes);
    let rss = b.rss_route().unwrap();
    assert_eq!("feed.xml", rss.dest);
    assert!(!rss.with_summaries && !rss.with_codes);
    assert_eq!(vec![6, 5, 4, 3, 2], rss.articles);
    assert_eq!(vec![6, 5, 4, 3, 2], b.recent_articles());
    let plan = b.build().unwrap();
    assert_eq!(2, plan.index.len());
    assert_eq!(12, plan.articles.len());
}

#[test]
fn mismatched_layout_stops_the_build() {
    let mut b = blog(twelve_articles(), 10);
    b.layouts.tag = Layout::Year("y".to_string());
    assert_eq!(Err(BuildError::InvalidLayout(LayoutKind::Tag)), b.tag_routes().map(|_| ()));
    assert_eq!(Err(BuildError::InvalidLayout(LayoutKind::Tag)), b.build().map(|_| ()));
}

#[test]
fn zero_page_size_is_refused() {
    let b = blog(twelve_articles(), 0);
    assert_eq!(Err(BuildError::ZeroPageSize(LayoutKind::Index)), b.index_routes().map(|_| ()));
}

#[test]
fn article_path_must_be_rooted() {
    let mut b = blog(twelve_articles(), 10);
    b.repository.articles[3].path = "a4.html".to_string();
    assert_eq!(Err(BuildError::PathDerivation), b.article_routes().map(|_| ()));
    assert_eq!(Err(BuildError::PathDerivation), b.build().map(|_| ()));
}
