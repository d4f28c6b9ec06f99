use techou::builder;
use techou::list::Page;

#[test]
fn chunks_cover_the_collection() {
    let bounds = builder::chunk_bounds(10, 3);
    assert_eq!(bounds, vec![(0, 3), (3, 3), (6, 3), (9, 1)]);
    let exact = builder::chunk_bounds(6, 3);
    assert_eq!(exact, vec![(0, 3), (3, 3)]);
    let empty = builder::chunk_bounds(0, 5);
    assert!(empty.is_empty());
    let one = builder::chunk_bounds(2, 5);
    assert_eq!(one, vec![(0, 2)]);
}

#[test]
fn index_pages_carry_their_names() {
    let bounds = builder::chunk_bounds(7, 3);
    let pages = builder::index_pages(&bounds);
    assert_eq!(pages.len(), 3);
    assert_eq!(pages[0].path, "index.html");
    assert_eq!(pages[0].title, "Index");
    assert_eq!(pages[0].items, 3);
    assert_eq!(pages[1].path, "index-1.html");
    assert_eq!(pages[1].title, "Index - Page 1");
    assert_eq!(pages[2].path, "index-2.html");
    assert_eq!(pages[2].items, 1);
    assert_eq!(pages[2].index, 2);
}

#[test]
fn pagination_names_the_neighbors() {
    let page = |i: usize| Page {
        index: i,
        title: format!("Page {}", i),
        items: 3,
        path: format!("index-{}.html", i),
    };
    let pages = vec![page(0), page(1), page(2)];
    let first = builder::pagination_at(&pages, 0);
    assert_eq!(first.current, 0);
    assert!(first.previous.is_none());
    assert_eq!(first.next.as_ref().unwrap().index, 1);
    let middle = builder::pagination_at(&pages, 1);
    assert_eq!(middle.previous.as_ref().unwrap().index, 0);
    assert_eq!(middle.next.as_ref().unwrap().index, 2);
    let last = builder::pagination_at(&pages, 2);
    assert_eq!(last.previous.as_ref().unwrap().index, 1);
    assert!(last.next.is_none());
}

#[test]
fn slugs_land_inside_the_output_folder() {
    assert_eq!(builder::non_adjoined_join("html", "/posts/a.html"), "html/posts/a.html");
    assert_eq!(builder::non_adjoined_join("html", "posts/a.html"), "html/posts/a.html");
}

#[test]
fn config_paths_join_under_the_root() {
    let config = techou::config::Config::new("/site");
    assert_eq!(config.folders.posts_folder_path(), "/site/posts");
    assert_eq!(config.folders.pages_folder_path(), "/site/pages");
    assert_eq!(config.folders.books_folder_path(), "/site/books");
    assert_eq!(config.folders.output_folder_path(), "/site/html");
    assert_eq!(config.folders.output_posts_folder_path(), "/site/html/posts");
    assert_eq!(config.folders.output_pages_folder_path(), "/site/html/pages");
    assert_eq!(config.folders.output_tags_folder_path(), "/site/html/tags");
    assert_eq!(config.folders.output_keywords_folder_path(), "/site/html/keywords");
    assert_eq!(config.folders.output_category_folder_path(), "/site/html/category");
    assert_eq!(config.folders.output_books_folder_path(), "/site/html/books");
    assert_eq!(config.folders.public_folder_path(), "/site/public");
    assert_eq!(config.project.posts_per_index, 8);
    assert_eq!(config.dates.date_format, "%Y-%m-%d");
    assert_eq!(config.server.server_address, "127.0.0.1:8001");
    assert!(config.rss.is_none());
}
