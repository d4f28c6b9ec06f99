use techou::front_matter;

#[test]
fn test_splitting() {
    let contents = r#"
[global]
name = "techou"
version = "0.1.0 || "
---
this is the actual article contents yeah."#;
    let result = front_matter::detect_front_matter(contents, "testfile.md", &Default::default());
    assert!(result.is_ok());
    let (front_matter, article) = result.unwrap();
    assert!(front_matter.len() > 0);
    assert!(article.len() > 0);
    assert_eq!(article, "this is the actual article contents yeah.");
}

#[test]
fn test_splitting_missing_separator() {
    let contents = "no separator in here at all";
    let result = front_matter::detect_front_matter(contents, "testfile.md", &Default::default());
    assert!(result.is_err());
    match result {
        Err(techou::error::TechouError::FrontMatter { issue }) => {
            assert!(issue.contains("testfile.md"));
        }
        _ => panic!("expected a front matter error"),
    }
}

#[test]
fn test_default_front_matter_text() {
    let block = front_matter::default_front_matter("A Title", "2009-12-30");
    assert_eq!(
        block,
        "[frontMatter]\ntitle = \"A Title\"\ntags = []\ncreated = \"2009-12-30\"\ndescription = \"\"\npublished = false\n"
    );
}

#[test]
fn test_join_front_matter_with_content() {
    let joined = front_matter::join_front_matter_with_content("front", "body");
    assert_eq!(joined, "front\n---\nbody");
    let split = front_matter::detect_front_matter(&joined, "x.md", &Default::default()).unwrap();
    assert_eq!(split.0, "front");
    assert_eq!(split.1, "body");
}

#[test]
fn rfc2822_rejects_unrepresentable_dates() {
    let mut fm = make_fm(2009, 12, 30);
    // A year the format cannot carry gives the empty string, not a panic.
    fm.date_info.year = -1;
    assert_eq!(fm.rfc2822(), "");
    fm.date_info.year = 10_000;
    assert_eq!(fm.rfc2822(), "");
    // Field values naming no calendar date give the empty string.
    let bad_month = make_fm(2009, 13, 1);
    assert_eq!(bad_month.rfc2822(), "");
    let bad_day = make_fm(2021, 2, 29);
    assert_eq!(bad_day.rfc2822(), "");
    // A leap day of a real leap year formats fine.
    let leap = make_fm(2020, 2, 29);
    assert!(leap.rfc2822().starts_with("Sat, 29 Feb 2020"));
}

fn make_fm(year: i32, month: u32, day: u32) -> techou::front_matter::FrontMatter {
    techou::front_matter::FrontMatter {
        title: String::from("Hello"),
        tags: Vec::new(),
        keywords: Vec::new(),
        created: String::new(),
        description: String::new(),
        description_html: String::new(),
        published: true,
        slug: None,
        meta: Vec::new(),
        created_timestamp: 0,
        date_info: techou::front_matter::DateInfo {
            year,
            month,
            day,
            hour: 0,
            minute: 0,
            second: 0,
        },
        identifier: String::new(),
    }
}

#[test]
fn test_rfc2822_formatting() {
    let fm = techou::front_matter::FrontMatter {
        title: String::from("Hello"),
        tags: Vec::new(),
        keywords: Vec::new(),
        created: String::from("2009-12-30"),
        description: String::new(),
        description_html: String::new(),
        published: true,
        slug: None,
        meta: Vec::new(),
        created_timestamp: 0,
        date_info: techou::front_matter::DateInfo {
            year: 2009,
            month: 12,
            day: 30,
            hour: 0,
            minute: 0,
            second: 0,
        },
        identifier: String::new(),
    };
    assert_eq!(fm.rfc2822(), "Wed, 30 Dec 2009 00:00:00 +0000");
}
