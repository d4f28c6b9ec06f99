use techou::book;

#[test]
fn test_parse_book_summary() {
    let content = r#"- [Intro](test1/test1.md)
- [Another](test/another.md)
    - [Level2.1](test2/test2.md)
    - [Level2.2](test2/test3.md)
        - [Level3.1](test2/test3/test1.md)
        - [Level3.2](test2/test3/test2.md)
        - [Level3.3](test2/test3/test2.md)
- [Final](final/final.md)
- [FFinal](final/final.md)
"#;
    let r = book::parse_chapter(&content, "/home/books", "/html/book");
    assert_eq!(r.len(), 4);
    assert_eq!(r[1].sub_chapters.len(), 2);
    assert_eq!(r[0].next.as_ref().unwrap().name, "Another");
    assert_eq!(r[1].next.as_ref().unwrap().name, "Level2.1");
    assert_eq!(r[1].previous.as_ref().unwrap().name, "Intro");
    assert_eq!(
        r[1].sub_chapters[0].previous.as_ref().unwrap().name,
        "Another"
    );
    assert_eq!(r[1].sub_chapters[0].next.as_ref().unwrap().name, "Level2.2");
    assert_eq!(
        r[1].sub_chapters[1].parent.as_ref().unwrap().name,
        "Another"
    );
    assert_eq!(
        r[1].sub_chapters[0].parent.as_ref().unwrap().name,
        "Another"
    );
    assert_eq!(r[2].previous.as_ref().unwrap().name, "Level3.3");
    assert_eq!(
        r[1].sub_chapters[1].sub_chapters[1]
            .next
            .as_ref()
            .unwrap()
            .name,
        "Level3.3"
    );
    assert_eq!(
        r[1].sub_chapters[1].sub_chapters[2]
            .next
            .as_ref()
            .unwrap()
            .name,
        "Final"
    );
    println!(
        "name: {}",
        r[1].sub_chapters[1].sub_chapters[1]
            .next
            .as_ref()
            .unwrap()
            .name
    );
}

#[test]
fn book_summary_scenario() {
    let content = "- [Intro](a.md)\n- [Another](b.md)\n    - [L2.1](c.md)\n    - [L2.2](d.md)";
    let r = book::parse_chapter(content, "/src", "/out");
    assert_eq!(r.len(), 2);
    assert_eq!(r[0].next.as_ref().unwrap().name, "Another");
    assert_eq!(r[1].previous.as_ref().unwrap().name, "Intro");
    assert_eq!(r[1].next.as_ref().unwrap().name, "L2.1");
    assert_eq!(r[1].sub_chapters[0].previous.as_ref().unwrap().name, "Another");
    assert_eq!(r[1].sub_chapters[0].parent.as_ref().unwrap().name, "Another");
}

#[test]
fn book_summary_ends_and_parents() {
    let content = "- [A](a.md)\n- [B](b.md)\n    - [B1](b1.md)\n- [C](c.md)";
    let r = book::parse_chapter(content, "/src", "/out");
    assert_eq!(r.len(), 3);
    assert!(r[0].previous.is_none());
    assert!(r[2].next.is_none());
    for root in &r {
        assert!(root.parent.is_none());
    }
    assert!(r[1].sub_chapters[0].parent.is_some());
    // Mutual consistency: whoever names a successor is named back by it.
    assert_eq!(r[1].next.as_ref().unwrap().name, "B1");
    assert_eq!(r[1].sub_chapters[0].previous.as_ref().unwrap().name, "B");
    assert_eq!(r[1].sub_chapters[0].next.as_ref().unwrap().name, "C");
    assert_eq!(r[2].previous.as_ref().unwrap().name, "B1");
}

#[test]
fn book_summary_locations() {
    let content = "- [Intro](guide/intro.md)";
    let r = book::parse_chapter(content, "/home/books/one", "/books/one");
    assert_eq!(r.len(), 1);
    assert_eq!(r[0].slug, "/books/one/guide/intro.html");
    assert_eq!(r[0].file_url, "/home/books/one/guide/intro.md");
    assert_eq!(r[0].level, 1);
    assert_eq!(r[0].name, "Intro");
}

#[test]
fn build_chapters_from_events() {
    // The same structure handed over as already-decoded events.
    let events = vec![
        book::SummaryEvent::ListStart,
        book::SummaryEvent::ItemStart,
        book::SummaryEvent::Link(String::from("a.md")),
        book::SummaryEvent::Text(String::from("A")),
        book::SummaryEvent::ItemEnd,
        book::SummaryEvent::ItemStart,
        book::SummaryEvent::Link(String::from("b.md")),
        book::SummaryEvent::Text(String::from("B")),
        book::SummaryEvent::ItemEnd,
        book::SummaryEvent::ListEnd,
    ];
    let r = book::build_chapters(&events, "in", "out");
    assert_eq!(r.len(), 2);
    assert_eq!(r[0].name, "A");
    assert_eq!(r[0].slug, "out/a.html");
    assert_eq!(r[0].file_url, "in/a.md");
    assert_eq!(r[0].next.as_ref().unwrap().name, "B");
    assert_eq!(r[1].previous.as_ref().unwrap().name, "A");
    assert!(r[1].next.is_none());
}

fn make_chapter_doc(content: &str, sections: Vec<(String, String)>) -> techou::document::Document {
    techou::document::Document {
        identifier: String::from("id"),
        filename: String::from("f.md"),
        info: make_info(),
        slug: String::from("/books/one/ch.html"),
        content: String::from(content),
        raw_content: String::from(content),
        sections,
        similar_documents: Vec::new(),
        previous_document: None,
        next_document: None,
        updated: false,
    }
}

fn make_info() -> techou::front_matter::FrontMatter {
    techou::front_matter::FrontMatter {
        title: String::from("Book"),
        tags: Vec::new(),
        keywords: Vec::new(),
        created: String::new(),
        description: String::new(),
        description_html: String::new(),
        published: true,
        slug: None,
        meta: Vec::new(),
        created_timestamp: 0,
        date_info: Default::default(),
        identifier: String::new(),
    }
}

#[test]
fn one_page_book_concatenates_chapters() {
    let chapter = |content: &str, slug: &str| book::Chapter {
        name: String::from("c"),
        slug: String::from(slug),
        file_url: String::new(),
        level: 1,
        document: make_chapter_doc(content, Vec::new()),
        sub_chapters: Vec::new(),
        next: None,
        previous: None,
        parent: None,
    };
    let mut inner = chapter("<p>two</p>", "/books/one/b.html");
    inner.sub_chapters.push(chapter("<p>three</p>", "/books/one/c.html"));
    let b = book::Book {
        identifier: String::from("book"),
        slug: String::from("/books/one/a.html"),
        folder: String::from("one"),
        info: make_info(),
        chapters: vec![chapter("<p>one</p>", "/books/one/a.html"), inner],
        complete_book: None,
    };
    let mut cache = techou::build_cache::BuildCache::new();
    let doc = b.as_one_document(&mut cache);
    assert_eq!(doc.content, "<p>one</p><p>two</p><p>three</p>");
    assert_eq!(doc.slug, "/books/one/complete_book.html");
    assert_eq!(doc.filename, "complete_book.html");
    // The second call is served from the cache and agrees.
    let again = b.as_one_document(&mut cache);
    assert_eq!(again.content, doc.content);
    assert_eq!(again.slug, doc.slug);
}
