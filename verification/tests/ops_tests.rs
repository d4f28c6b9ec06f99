use techou::document::{Document, DocumentLink};
use techou::document_operations as ops;
use techou::front_matter::{FrontMatter, DateInfo};

fn make_post(identifier: &str, stamp: i64, year: i32, month: u32, tags: &[&str]) -> Document {
    Document {
        identifier: String::from(identifier),
        filename: String::from("f.md"),
        info: FrontMatter {
            title: String::from(identifier),
            tags: tags.iter().map(|t| String::from(*t)).collect(),
            keywords: Vec::new(),
            created: String::new(),
            description: String::new(),
            description_html: String::new(),
            published: true,
            slug: None,
            meta: Vec::new(),
            created_timestamp: stamp,
            date_info: DateInfo { year, month, day: 1, hour: 0, minute: 0, second: 0 },
            identifier: String::new(),
        },
        slug: format!("/posts/{}.html", identifier),
        content: String::new(),
        raw_content: String::new(),
        sections: Vec::new(),
        similar_documents: Vec::new(),
        previous_document: None,
        next_document: None,
        updated: false,
    }
}

#[test]
fn sorting_newest_first() {
    let posts = vec![
        make_post("old", 10, 2019, 1, &[]),
        make_post("newest", 30, 2021, 5, &[]),
        make_post("middle", 20, 2020, 3, &[]),
    ];
    let sorted = ops::sort_posts_by_date(posts);
    let names: Vec<&str> = sorted.iter().map(|d| d.identifier.as_str()).collect();
    assert_eq!(names, vec!["newest", "middle", "old"]);
}

#[test]
fn siblings_point_at_their_neighbors() {
    let mut posts = vec![
        make_post("a", 3, 2021, 1, &[]),
        make_post("b", 2, 2021, 1, &[]),
        make_post("c", 1, 2021, 1, &[]),
    ];
    ops::make_document_siblings(&mut posts);
    assert!(posts[0].previous_document.is_none());
    assert_eq!(posts[0].next_document.as_ref().unwrap().identifier, "b");
    assert_eq!(posts[1].previous_document.as_ref().unwrap().identifier, "a");
    assert_eq!(posts[1].next_document.as_ref().unwrap().identifier, "c");
    assert_eq!(posts[2].previous_document.as_ref().unwrap().identifier, "b");
    assert!(posts[2].next_document.is_none());
}

#[test]
fn archive_groups_by_year_and_month() {
    let posts = vec![
        make_post("a", 1, 2020, 1, &[]),
        make_post("b", 2, 2021, 3, &[]),
        make_post("c", 3, 2020, 7, &[]),
        make_post("d", 4, 2020, 1, &[]),
    ];
    let years = ops::posts_by_date(&posts);
    assert_eq!(years.len(), 2);
    assert_eq!(years[0].name, 2021);
    assert_eq!(years[0].count, 1);
    assert_eq!(years[1].name, 2020);
    assert_eq!(years[1].count, 3);
    // Months stand newest first; their posts are positions in the collection.
    assert_eq!(years[1].months.len(), 2);
    assert_eq!(years[1].months[0].name, 7);
    assert_eq!(years[1].months[0].posts, vec![2]);
    assert_eq!(years[1].months[1].name, 1);
    assert_eq!(years[1].months[1].posts, vec![0, 3]);
}

#[test]
fn categories_group_by_tag() {
    let posts = vec![
        make_post("a", 1, 2020, 1, &["rust", "tools"]),
        make_post("b", 2, 2020, 2, &["rust"]),
        make_post("c", 3, 2020, 3, &["zebra"]),
    ];
    let cats = ops::posts_by_array(&posts, ops::TagField::Tags);
    // Names stand in descending order.
    let names: Vec<&str> = cats.iter().map(|c| c.name.as_str()).collect();
    assert_eq!(names, vec!["zebra", "tools", "rust"]);
    assert_eq!(cats[2].posts, vec![0, 1]);
    assert_eq!(cats[2].count, 2);
    assert_eq!(cats[0].posts, vec![2]);
}

#[test]
fn keywords_group_separately() {
    let mut doc = make_post("a", 1, 2020, 1, &["tag-only"]);
    doc.info.keywords.push(String::from("kw"));
    let posts = vec![doc];
    let cats = ops::posts_by_array(&posts, ops::TagField::Keywords);
    assert_eq!(cats.len(), 1);
    assert_eq!(cats[0].name, "kw");
}

fn link(identifier: &str) -> DocumentLink {
    DocumentLink {
        identifier: String::from(identifier),
        title: String::new(),
        desc: String::new(),
        slug: String::new(),
    }
}

#[test]
fn similarity_keeps_the_best_scores() {
    let scored = vec![(10, link("low")), (90, link("high")), (50, link("mid"))];
    let top = ops::rank_similar(scored, 2);
    assert_eq!(top.len(), 2);
    assert_eq!(top[0].0, 90);
    assert_eq!(top[0].1.identifier, "high");
    assert_eq!(top[1].0, 50);
    assert_eq!(top[1].1.identifier, "mid");
}

#[test]
fn similarity_with_fewer_candidates_than_asked() {
    let scored = vec![(10, link("only"))];
    let top = ops::rank_similar(scored, 5);
    assert_eq!(top.len(), 1);
    assert_eq!(top[0].1.identifier, "only");
}
