use techou::document::{self, Document};
use techou::front_matter::{FrontMatter, DateInfo};

fn make_front_matter(title: &str, slug: Option<&str>) -> FrontMatter {
    FrontMatter {
        title: String::from(title),
        tags: vec![String::from("first tag"), String::from("second tag")],
        keywords: Vec::new(),
        created: String::from("2009-12-30"),
        description: String::from("A run around the world"),
        description_html: String::new(),
        published: true,
        slug: slug.map(String::from),
        meta: Vec::new(),
        created_timestamp: 1262130600,
        date_info: DateInfo { year: 2009, month: 12, day: 30, hour: 0, minute: 0, second: 0 },
        identifier: String::new(),
    }
}

#[test]
fn test_naming() {
    let frontmatter = make_front_matter("Hello World", None);
    let slug = document::slug_from_frontmatter(&frontmatter, "posts");
    assert_eq!(slug, "/posts/2009-12-30-hello-world.html");
}

#[test]
fn explicit_slug_wins() {
    let frontmatter = make_front_matter("Hello World", Some("custom.html"));
    let slug = document::slug_from_frontmatter(&frontmatter, "pages");
    assert_eq!(slug, "/pages/custom.html");
}

#[test]
fn document_link_carries_the_essentials() {
    let doc = Document {
        identifier: String::from("abc123"),
        filename: String::from("x.md"),
        info: make_front_matter("A Title", None),
        slug: String::from("/posts/a.html"),
        content: String::new(),
        raw_content: String::new(),
        sections: Vec::new(),
        similar_documents: Vec::new(),
        previous_document: None,
        next_document: None,
        updated: false,
    };
    let link = doc.link();
    assert_eq!(link.identifier, "abc123");
    assert_eq!(link.title, "A Title");
    assert_eq!(link.desc, "A run around the world");
    assert_eq!(link.slug, "/posts/a.html");
}

#[test]
fn from_multiple_assembles_the_one_page_form() {
    let info = make_front_matter("Book", None);
    let sections = vec![(String::from("s1"), String::from("One"))];
    let doc = Document::from_multiple(
        String::from("<p>all</p>"),
        "",
        "/books/b/complete_book.html",
        "complete_book.html",
        &info,
        sections,
    );
    assert_eq!(doc.content, "<p>all</p>");
    assert_eq!(doc.slug, "/books/b/complete_book.html");
    assert_eq!(doc.filename, "complete_book.html");
    assert_eq!(doc.info.title, "Book");
    assert_eq!(doc.sections.len(), 1);
    assert!(doc.raw_content.is_empty());
    assert!(!doc.updated);
}
