use techou::parse_event_handlers::{
    self as handlers, LinkKind, LinksEventHandler, SectionEventHandler, ParseResult,
};

#[test]
fn splitting_text() {
    assert_eq!(handlers::split_by("a::b", "::"), vec!["a", "b"]);
    assert_eq!(handlers::split_by("plain", "::"), vec!["plain"]);
    assert_eq!(handlers::split_by("id::doc::frag", "::"), vec!["id", "doc", "frag"]);
    assert_eq!(handlers::split_by("::x", "::"), vec!["", "x"]);
}

#[test]
fn link_classification() {
    assert!(matches!(handlers::detect_link_type("http://example.com"), LinkKind::Plain));
    assert!(matches!(handlers::detect_link_type("href::x"), LinkKind::Plain));
    match handlers::detect_link_type("lnk::yahoo") {
        LinkKind::Short(t) => assert_eq!(t, "yahoo"),
        _ => panic!("expected a short link"),
    }
    match handlers::detect_link_type("rel::posts/post.md") {
        LinkKind::Relative(t) => assert_eq!(t, "posts/post.md"),
        _ => panic!("expected a relative link"),
    }
    match handlers::detect_link_type("id::doc::frag") {
        LinkKind::Anchor(t, f) => {
            assert_eq!(t, "doc");
            assert_eq!(f, "frag");
        }
        _ => panic!("expected an anchor link"),
    }
}

#[test]
fn relative_links_land_under_the_root() {
    let with_base = LinksEventHandler::new(Vec::new(), Some(String::from("book")));
    assert_eq!(
        with_base.rewrite("rel::posts/post.md").unwrap(),
        "/book/posts/post.html"
    );
    let without_base = LinksEventHandler::new(Vec::new(), None);
    assert_eq!(
        without_base.rewrite("rel::posts/post.md").unwrap(),
        "//posts/post.html"
    );
}

#[test]
fn short_links_resolve_through_the_database() {
    let links = vec![
        (String::from("yahoo"), String::from("jojo")),
        (String::from("drm"), String::from("jaja")),
    ];
    let handler = LinksEventHandler::new(links, None);
    assert_eq!(handler.rewrite("lnk::yahoo").unwrap(), "jojo");
    assert_eq!(handler.rewrite("lnk::drm").unwrap(), "jaja");
    assert!(handler.rewrite("lnk::missing").is_none());
    assert!(handler.rewrite("http://example.com").is_none());
}

#[test]
fn anchor_links_use_the_identifier_hash() {
    let handler = LinksEventHandler::new(Vec::new(), None);
    let rewritten = handler.rewrite("id::target::3").unwrap();
    assert!(rewritten.starts_with('#'));
    assert!(rewritten.ends_with("-3"));
    // Eight hex digits of the target's hash between the markers.
    assert_eq!(rewritten.len(), 1 + 8 + 2);
}

#[test]
fn sections_are_numbered_and_anchored() {
    let mut handler = SectionEventHandler::new(
        "base",
        "<span id=\"{identifier}-{number}\"></span>",
        None,
    );
    let mut result = ParseResult { content: String::new(), sections: Vec::new() };
    handler.on_heading_start();
    handler.on_text("Section ");
    handler.on_text("1");
    let html = handler.on_heading_end(&mut result).unwrap();
    assert_eq!(html, "<span id=\"base-1\"></span>");
    handler.on_heading_start();
    handler.on_text("Another");
    let html2 = handler.on_heading_end(&mut result).unwrap();
    assert_eq!(html2, "<span id=\"base-2\"></span>");
    assert_eq!(result.sections.len(), 2);
    assert_eq!(result.sections[0], (1, String::from("Section 1")));
    assert_eq!(result.sections[1], (2, String::from("Another")));
}

#[test]
fn section_limit_cuts_off() {
    let mut handler = SectionEventHandler::new("x", "{number}", Some(1));
    let mut result = ParseResult { content: String::new(), sections: Vec::new() };
    handler.on_heading_start();
    handler.on_text("One");
    assert!(handler.on_heading_end(&mut result).is_some());
    handler.on_heading_start();
    handler.on_text("Two");
    assert!(handler.on_heading_end(&mut result).is_none());
    assert_eq!(result.sections.len(), 1);
}

#[test]
fn text_outside_headings_is_ignored() {
    let mut handler = SectionEventHandler::new("x", "{number}", None);
    let mut result = ParseResult { content: String::new(), sections: Vec::new() };
    handler.on_text("stray");
    handler.on_heading_start();
    handler.on_text("Real");
    handler.on_heading_end(&mut result);
    assert_eq!(result.sections[0].1, "Real");
}
