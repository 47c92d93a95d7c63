//! What `init` lays out in a new project: an example of each kind of file.
use vstd::prelude::*;

verus! {

/// The example files of a new project.
#[derive(Debug, Clone, Copy, PartialEq, Eq, Structural)]
pub enum ExampleFile {
    Article,
    Code,
    ArticleLayout,
    IndexLayout,
    PageLayout,
    RssLayout,
    TagLayout,
    YearLayout,
    Page,
    HeaderPartial,
    MenuPartial,
    Image,
    StyleSheet,
    Config,
    DockerCompose,
}

/// Where an example file goes, relative to the project directory.
pub open spec fn example_path(f: ExampleFile) -> Seq<char> {
    match f {
        ExampleFile::Article => "articles/2019/06/23/example.md"@,
        ExampleFile::Code => "codes/2019/06/23/example.rb"@,
        ExampleFile::ArticleLayout => "layouts/article.hbs"@,
        ExampleFile::IndexLayout => "layouts/index.hbs"@,
        ExampleFile::PageLayout => "layouts/page.hbs"@,
        ExampleFile::RssLayout => "layouts/rss.hbs"@,
        ExampleFile::TagLayout => "layouts/tag.hbs"@,
        ExampleFile::YearLayout => "layouts/year.hbs"@,
        ExampleFile::Page => "pages/example.md"@,
        ExampleFile::HeaderPartial => "partials/header.hbs"@,
        ExampleFile::MenuPartial => "partials/menu.hbs"@,
        ExampleFile::Image => "resources/images/sushi_salmon.png"@,
        ExampleFile::StyleSheet => "resources/stylesheets/layout.sass"@,
        ExampleFile::Config => "salmon.yaml"@,
        ExampleFile::DockerCompose => "docker-compose.yaml"@,
    }
}

impl ExampleFile {
    pub fn relative_path(&self) -> (r: &'static str)
        ensures
            r@ == example_path(*self),
    {
        match self {
            ExampleFile::Article => "articles/2019/06/23/example.md",
            ExampleFile::Code => "codes/2019/06/23/example.rb",
            ExampleFile::ArticleLayout => "layouts/article.hbs",
            ExampleFile::IndexLayout => "layouts/index.hbs",
            ExampleFile::PageLayout => "layouts/page.hbs",
            ExampleFile::RssLayout => "layouts/rss.hbs",
            ExampleFile::TagLayout => "layouts/tag.hbs",
            ExampleFile::YearLayout => "layouts/year.hbs",
            ExampleFile::Page => "pages/example.md",
            ExampleFile::HeaderPartial => "partials/header.hbs",
            ExampleFile::MenuPartial => "partials/menu.hbs",
            ExampleFile::Image => "resources/images/sushi_salmon.png",
            ExampleFile::StyleSheet => "resources/stylesheets/layout.sass",
            ExampleFile::Config => "salmon.yaml",
            ExampleFile::DockerCompose => "docker-compose.yaml",
        }
    }
}

/// The order in which `init` writes the example files.
pub open spec fn example_order() -> Seq<ExampleFile> {
    seq![
        ExampleFile::Article,
        ExampleFile::Code,
        ExampleFile::ArticleLayout,
        ExampleFile::IndexLayout,
        ExampleFile::PageLayout,
        ExampleFile::RssLayout,
        ExampleFile::TagLayout,
        ExampleFile::YearLayout,
        ExampleFile::Page,
        ExampleFile::HeaderPartial,
        ExampleFile::MenuPartial,
        ExampleFile::Image,
        ExampleFile::StyleSheet,
        ExampleFile::Config,
        ExampleFile::DockerCompose,
    ]
}

/// An example file and the path it is written to.
#[derive(Debug, Clone)]
pub struct ScaffoldEntry {
    pub path: String,
    pub file: ExampleFile,
}

/// Lays out a new project in a directory.
#[derive(Debug)]
pub struct Initializer {
    project_dir: String,
}

impl Initializer {
    pub closed spec fn dir(&self) -> Seq<char> {
        self.project_dir@
    }

    pub fn new(project_dir: String) -> (r: Self)
        ensures
            r.dir() == project_dir@,
    {
        Initializer { project_dir }
    }

    /// The example files, in the order they are written, each with its path
    /// under the project directory.
    pub fn init(&self) -> (r: Vec<ScaffoldEntry>)
        ensures
            r.len() == example_order().len(),
            forall|k: int|
                0 <= k < r.len() ==> (#[trigger] r@[k]).file == example_order()[k] && r@[k].path@
                    == self.dir() + "/"@ + example_path(example_order()[k]),
    {
        let files = vec![
            ExampleFile::Article,
            ExampleFile::Code,
            ExampleFile::ArticleLayout,
            ExampleFile::IndexLayout,
            ExampleFile::PageLayout,
            ExampleFile::RssLayout,
            ExampleFile::TagLayout,
            ExampleFile::YearLayout,
            ExampleFile::Page,
            ExampleFile::HeaderPartial,
            ExampleFile::MenuPartial,
            ExampleFile::Image,
            ExampleFile::StyleSheet,
            ExampleFile::Config,
            ExampleFile::DockerCompose,
        ];
        assert(files@ =~= example_order());
        let mut r: Vec<ScaffoldEntry> = Vec::new();
        let mut k: usize = 0;
        while k < files.len()
            invariant
                files@ == example_order(),
                k <= files.len(),
                r.len() == k,
                forall|j: int|
                    0 <= j < k ==> (#[trigger] r@[j]).file == example_order()[j] && r@[j].path@
                        == self.dir() + "/"@ + example_path(example_order()[j]),
            decreases files.len() - k,
        {
            let f = files[k];
            let mut path = String::from_str(self.project_dir.as_str());
            path.append("/");
            path.append(f.relative_path());
            r.push(ScaffoldEntry { path, file: f });
            k = k + 1;
        }
        r
    }
}

} // verus!
