//! The project configuration: folder layout, templates, dates, server,
//! feeds, search and rendering switches, with their default values.
//!
//! Reading a configuration file is an outside concern; the model and the
//! derived folder paths are owned and verified here.

use vstd::prelude::*;

verus! {

use crate::strings::{join_path, join_path_spec};

#[derive(Debug, Clone)]
pub struct ConfigProject {
    /// The base URL of the website.
    pub base_url: String,
    pub keywords: Vec<String>,
    pub title: String,
    pub description: String,
    pub posts_per_index: u32,
    pub render_one_page_books: bool,
    pub debug_instrumentation: bool,
    /// Skip tags, archives and search indexes; render only the essentials.
    pub fast_render: bool,
}

/// The default project settings.
pub open spec fn is_default_project(r: ConfigProject) -> bool {
    &&& r.base_url@ == "https://example.com"@
    &&& r.keywords@.len() == 0
    &&& r.title@.len() == 0
    &&& r.description@.len() == 0
    &&& r.posts_per_index == 8
    &&& !r.render_one_page_books
    &&& !r.debug_instrumentation
    &&& !r.fast_render
}

impl Default for ConfigProject {
    fn default() -> (r: Self)
        ensures
            is_default_project(r),
    {
        ConfigProject {
            base_url: String::from_str("https://example.com"),
            keywords: Vec::new(),
            title: String::new(),
            description: String::new(),
            posts_per_index: 8,
            render_one_page_books: false,
            debug_instrumentation: false,
            fast_render: false,
        }
    }
}

#[derive(Debug, Clone)]
pub struct ConfigRenderer {
    pub highlight_syntax: bool,
    pub swift_use_splash: bool,
    pub markdown_tables: bool,
    pub markdown_footnotes: bool,
    pub parse_headers: bool,
    pub parse_links: bool,
    /// The HTML injected for every parsed header section.
    pub section_header_identifier_template: String,
    /// When set, the build cache is persisted to disk after a run.
    pub store_build_cache: bool,
    pub highlight_prefix: String,
}

/// The default rendering switches.
pub open spec fn is_default_renderer(r: ConfigRenderer) -> bool {
    &&& r.highlight_syntax
    &&& !r.swift_use_splash
    &&& r.markdown_tables
    &&& r.markdown_footnotes
    &&& r.parse_headers
    &&& r.parse_links
    &&& r.section_header_identifier_template@ == "<span id=\"{identifier}-{number}\"></span>"@
    &&& r.store_build_cache
    &&& r.highlight_prefix@ == "techou"@
}

impl Default for ConfigRenderer {
    fn default() -> (r: Self)
        ensures
            is_default_renderer(r),
    {
        ConfigRenderer {
            highlight_syntax: true,
            swift_use_splash: false,
            markdown_tables: true,
            markdown_footnotes: true,
            parse_headers: true,
            parse_links: true,
            section_header_identifier_template: String::from_str(
                "<span id=\"{identifier}-{number}\"></span>",
            ),
            store_build_cache: true,
            highlight_prefix: String::from_str("techou"),
        }
    }
}

#[derive(Debug, Clone)]
pub struct ConfigFolders {
    /// The root folder of the project.
    pub root: String,
    pub posts_folder: String,
    pub pages_folder: String,
    pub books_folder: String,
    pub output_folder: String,
    pub public_folder: String,
    pub public_copy_folders: Vec<String>,
    /// Book summary files, relative to the books folder.
    pub books: Vec<String>,
    pub posts_folder_name: String,
    pub tags_folder_name: String,
    pub keywords_folder_name: String,
    pub category_folder_name: String,
    pub pages_folder_name: String,
    pub books_folder_name: String,
    pub years_folder_name: String,
}

/// The default folder layout, rooted at `root`.
pub open spec fn is_default_folders(r: ConfigFolders, root: Seq<char>) -> bool {
    &&& r.root@ == root
    &&& r.posts_folder@ == "posts"@
    &&& r.pages_folder@ == "pages"@
    &&& r.books_folder@ == "books"@
    &&& r.output_folder@ == "html"@
    &&& r.public_folder@ == "public"@
    &&& r.public_copy_folders@.len() == 3
    &&& r.books@.len() == 0
    &&& r.posts_folder_name@ == "posts"@
    &&& r.pages_folder_name@ == "pages"@
    &&& r.books_folder_name@ == "books"@
    &&& r.tags_folder_name@ == "tags"@
    &&& r.keywords_folder_name@ == "keywords"@
    &&& r.category_folder_name@ == "category"@
    &&& r.years_folder_name@ == "years"@
}

impl Default for ConfigFolders {
    fn default() -> (r: Self)
        ensures
            is_default_folders(r, Seq::<char>::empty()),
    {
        let mut copy_folders: Vec<String> = Vec::new();
        copy_folders.push(String::from_str("css"));
        copy_folders.push(String::from_str("img"));
        copy_folders.push(String::from_str("js"));
        ConfigFolders {
            root: String::new(),
            posts_folder: String::from_str("posts"),
            pages_folder: String::from_str("pages"),
            books_folder: String::from_str("books"),
            output_folder: String::from_str("html"),
            public_folder: String::from_str("public"),
            public_copy_folders: copy_folders,
            books: Vec::new(),
            posts_folder_name: String::from_str("posts"),
            tags_folder_name: String::from_str("tags"),
            keywords_folder_name: String::from_str("keywords"),
            category_folder_name: String::from_str("category"),
            pages_folder_name: String::from_str("pages"),
            books_folder_name: String::from_str("books"),
            years_folder_name: String::from_str("years"),
        }
    }
}

impl ConfigFolders {
    pub fn posts_folder_path(&self) -> (r: String)
        ensures
            r@ == join_path_spec(self.root@, self.posts_folder@),
    {
        join_path(self.root.as_str(), self.posts_folder.as_str())
    }

    pub fn pages_folder_path(&self) -> (r: String)
        ensures
            r@ == join_path_spec(self.root@, self.pages_folder@),
    {
        join_path(self.root.as_str(), self.pages_folder.as_str())
    }

    pub fn books_folder_path(&self) -> (r: String)
        ensures
            r@ == join_path_spec(self.root@, self.books_folder@),
    {
        join_path(self.root.as_str(), self.books_folder.as_str())
    }

    pub fn output_folder_path(&self) -> (r: String)
        ensures
            r@ == join_path_spec(self.root@, self.output_folder@),
    {
        join_path(self.root.as_str(), self.output_folder.as_str())
    }

    pub fn output_posts_folder_path(&self) -> (r: String)
        ensures
            r@ == join_path_spec(join_path_spec(self.root@, self.output_folder@),
                self.posts_folder_name@),
    {
        let base = self.output_folder_path();
        join_path(base.as_str(), self.posts_folder_name.as_str())
    }

    pub fn output_pages_folder_path(&self) -> (r: String)
        ensures
            r@ == join_path_spec(join_path_spec(self.root@, self.output_folder@),
                self.pages_folder_name@),
    {
        let base = self.output_folder_path();
        join_path(base.as_str(), self.pages_folder_name.as_str())
    }

    pub fn output_tags_folder_path(&self) -> (r: String)
        ensures
            r@ == join_path_spec(join_path_spec(self.root@, self.output_folder@),
                self.tags_folder_name@),
    {
        let base = self.output_folder_path();
        join_path(base.as_str(), self.tags_folder_name.as_str())
    }

    pub fn output_keywords_folder_path(&self) -> (r: String)
        ensures
            r@ == join_path_spec(join_path_spec(self.root@, self.output_folder@),
                self.keywords_folder_name@),
    {
        let base = self.output_folder_path();
        join_path(base.as_str(), self.keywords_folder_name.as_str())
    }

    pub fn output_category_folder_path(&self) -> (r: String)
        ensures
            r@ == join_path_spec(join_path_spec(self.root@, self.output_folder@),
                self.category_folder_name@),
    {
        let base = self.output_folder_path();
        join_path(base.as_str(), self.category_folder_name.as_str())
    }

    pub fn output_books_folder_path(&self) -> (r: String)
        ensures
            r@ == join_path_spec(join_path_spec(self.root@, self.output_folder@),
                self.books_folder_name@),
    {
        let base = self.output_folder_path();
        join_path(base.as_str(), self.books_folder_name.as_str())
    }

    pub fn public_folder_path(&self) -> (r: String)
        ensures
            r@ == join_path_spec(self.root@, self.public_folder@),
    {
        join_path(self.root.as_str(), self.public_folder.as_str())
    }
}

#[derive(Debug, Clone)]
pub struct ConfigTemplates {
    pub post_template: String,
    pub page_template: String,
    pub list_template: String,
    pub book_template: String,
    pub chapter_template: String,
    pub year_template: String,
}

/// The default template file names.
pub open spec fn is_default_templates(r: ConfigTemplates) -> bool {
    &&& r.post_template@ == "post.html"@
    &&& r.page_template@ == "page.html"@
    &&& r.list_template@ == "list.html"@
    &&& r.book_template@ == "book.html"@
    &&& r.chapter_template@ == "chapter.html"@
    &&& r.year_template@ == "year.html"@
}

impl Default for ConfigTemplates {
    fn default() -> (r: Self)
        ensures
            is_default_templates(r),
    {
        ConfigTemplates {
            post_template: String::from_str("post.html"),
            page_template: String::from_str("page.html"),
            list_template: String::from_str("list.html"),
            book_template: String::from_str("book.html"),
            chapter_template: String::from_str("chapter.html"),
            year_template: String::from_str("year.html"),
        }
    }
}

#[derive(Debug, Clone)]
pub struct ConfigDates {
    pub date_format: String,
    pub date_time_format: String,
    pub output_date_time_format: String,
}

/// The default date formats.
pub open spec fn is_default_dates(r: ConfigDates) -> bool {
    &&& r.date_format@ == "%Y-%m-%d"@
    &&& r.date_time_format@ == "%Y-%m-%d %H:%M:%S"@
    &&& r.output_date_time_format@ == "%Y-%m-%d %H:%M:%S"@
}

impl Default for ConfigDates {
    fn default() -> (r: Self)
        ensures
            is_default_dates(r),
    {
        ConfigDates {
            date_format: String::from_str("%Y-%m-%d"),
            date_time_format: String::from_str("%Y-%m-%d %H:%M:%S"),
            output_date_time_format: String::from_str("%Y-%m-%d %H:%M:%S"),
        }
    }
}

#[derive(Debug, Clone)]
pub struct ConfigServer {
    pub server_address: String,
    /// Inject the live-reload script and notify connected browsers on change.
    pub auto_reload_browser_via_websocket_on_change: bool,
    pub auto_reload_websocket_path: String,
}

/// The default server settings.
pub open spec fn is_default_server(r: ConfigServer) -> bool {
    &&& r.server_address@ == "127.0.0.1:8001"@
    &&& r.auto_reload_browser_via_websocket_on_change
    &&& r.auto_reload_websocket_path@ == "/ws/"@
}

impl Default for ConfigServer {
    fn default() -> (r: Self)
        ensures
            is_default_server(r),
    {
        ConfigServer {
            server_address: String::from_str("127.0.0.1:8001"),
            auto_reload_browser_via_websocket_on_change: true,
            auto_reload_websocket_path: String::from_str("/ws/"),
        }
    }
}

#[derive(Debug, Clone)]
pub struct ConfigRSS {
    pub feed_address: String,
    pub title: String,
    pub description: Option<String>,
    pub author_email: String,
    pub author_name: Option<String>,
}

#[derive(Debug, Clone)]
pub struct ConfigSearch {
    pub enable: bool,
    /// The `.js` file the search index is written to.
    pub search_index_file: String,
    pub limit_results: u32,
    pub teaser_word_count: u32,
    pub use_boolean_and: bool,
    pub boost_title: u8,
    pub boost_hierarchy: u8,
    pub boost_paragraph: u8,
    pub expand: bool,
    pub heading_split_level: u8,
}

/// The default search settings.
pub open spec fn is_default_search(r: ConfigSearch) -> bool {
    &&& r.enable
    &&& r.search_index_file@ == "js/searchindex.js"@
    &&& r.limit_results == 30
    &&& r.teaser_word_count == 30
    &&& !r.use_boolean_and
    &&& r.boost_title == 2
    &&& r.boost_hierarchy == 1
    &&& r.boost_paragraph == 1
    &&& r.expand
    &&& r.heading_split_level == 3
}

impl Default for ConfigSearch {
    fn default() -> (r: Self)
        ensures
            is_default_search(r),
    {
        ConfigSearch {
            enable: true,
            search_index_file: String::from_str("js/searchindex.js"),
            limit_results: 30,
            teaser_word_count: 30,
            use_boolean_and: false,
            boost_title: 2,
            boost_hierarchy: 1,
            boost_paragraph: 1,
            expand: true,
            heading_split_level: 3,
        }
    }
}

#[derive(Debug, Clone)]
pub struct Config {
    pub project: ConfigProject,
    pub folders: ConfigFolders,
    pub templates: ConfigTemplates,
    pub dates: ConfigDates,
    pub server: ConfigServer,
    pub rss: Option<ConfigRSS>,
    pub search: ConfigSearch,
    pub render: ConfigRenderer,
    /// Short link names and their targets, looked up for `lnk::` links.
    pub short_links: Vec<(String, String)>,
    /// Free-form metadata pairs available to all templates.
    pub meta: Vec<(String, String)>,
}

/// All fields at their defaults, except that the folder root is `root`.
pub open spec fn is_default_config(c: Config, root: Seq<char>) -> bool {
    &&& is_default_project(c.project)
    &&& is_default_folders(c.folders, root)
    &&& is_default_templates(c.templates)
    &&& is_default_dates(c.dates)
    &&& is_default_server(c.server)
    &&& is_default_search(c.search)
    &&& is_default_renderer(c.render)
    &&& c.rss is None
    &&& c.short_links@.len() == 0
    &&& c.meta@.len() == 0
}

impl Default for Config {
    fn default() -> (r: Self)
        ensures
            is_default_config(r, Seq::<char>::empty()),
    {
        let r = Config {
            project: ConfigProject::default(),
            folders: ConfigFolders::default(),
            templates: ConfigTemplates::default(),
            dates: ConfigDates::default(),
            server: ConfigServer::default(),
            rss: None,
            search: ConfigSearch::default(),
            render: ConfigRenderer::default(),
            short_links: Vec::new(),
            meta: Vec::new(),
        };
        r
    }
}

impl Config {
    /// A default in-memory configuration rooted at `folder`.
    pub fn new(folder: &str) -> (r: Config)
        ensures
            is_default_config(r, folder@),
    {
        let mut r = Config::default();
        r.folders.root = folder.to_owned();
        r
    }
}

} // verus!
