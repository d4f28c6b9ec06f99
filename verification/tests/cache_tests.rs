use techou::build_cache::BuildCache;
use techou::document::Document;

fn make_cached_doc(identifier: &str, raw: &str) -> Document {
    Document {
        identifier: String::from(identifier),
        filename: String::from("f.md"),
        info: techou::front_matter::FrontMatter {
            title: String::from("T"),
            tags: Vec::new(),
            keywords: Vec::new(),
            created: String::new(),
            description: String::new(),
            description_html: String::new(),
            published: true,
            slug: None,
            meta: Vec::new(),
            created_timestamp: 7,
            date_info: Default::default(),
            identifier: String::new(),
        },
        slug: String::from("/posts/t.html"),
        content: String::from("<p>rendered</p>"),
        raw_content: String::from(raw),
        sections: vec![(String::from("s1"), String::from("One"))],
        similar_documents: Vec::new(),
        previous_document: None,
        next_document: None,
        updated: false,
    }
}

#[test]
fn cache_round_trip() {
    let mut cache = BuildCache::new();
    let doc = make_cached_doc("a", "raw content");
    cache.set_item("/posts/a.md", &doc);
    let hit = cache.get_item("/posts/a.md", "raw content");
    assert!(hit.is_some());
    let got = hit.unwrap();
    assert_eq!(got.identifier, "a");
    assert_eq!(got.content, "<p>rendered</p>");
    assert_eq!(got.raw_content, "raw content");
    assert_eq!(got.sections.len(), 1);
    assert_eq!(got.info.title, "T");
}

#[test]
fn cache_misses_on_changed_content() {
    let mut cache = BuildCache::new();
    let doc = make_cached_doc("a", "raw content");
    cache.set_item("/posts/a.md", &doc);
    assert!(cache.get_item("/posts/a.md", "raw content edited").is_none());
}

#[test]
fn cache_misses_on_unknown_key() {
    let mut cache = BuildCache::new();
    let doc = make_cached_doc("a", "raw content");
    cache.set_item("/posts/a.md", &doc);
    assert!(cache.get_item("/posts/b.md", "raw content").is_none());
}

#[test]
fn cache_overwrites_per_key() {
    let mut cache = BuildCache::new();
    cache.set_item("/posts/a.md", &make_cached_doc("one", "v1"));
    cache.set_item("/posts/a.md", &make_cached_doc("two", "v2"));
    assert!(cache.get_item("/posts/a.md", "v1").is_none());
    let got = cache.get_item("/posts/a.md", "v2").unwrap();
    assert_eq!(got.identifier, "two");
}

#[test]
fn cache_persistence_round_trip() {
    let mut cache = BuildCache::new();
    cache.set_item("/posts/a.md", &make_cached_doc("a", "alpha"));
    cache.set_item("/posts/b.md", &make_cached_doc("b", "beta"));
    let entries = cache.to_entries();
    assert_eq!(entries.len(), 2);
    let reloaded = BuildCache::from_entries(entries);
    let a = reloaded.get_item("/posts/a.md", "alpha").unwrap();
    assert_eq!(a.identifier, "a");
    let b = reloaded.get_item("/posts/b.md", "beta").unwrap();
    assert_eq!(b.identifier, "b");
    assert!(reloaded.get_item("/posts/a.md", "beta").is_none());
}
