use techou::style::StyleEntry;

#[test]
fn css_entry_renders_the_present_fields() {
    let entry = StyleEntry {
        scope: None,
        foreground: Some(String::from("#ffffff")),
        background: Some(String::from("#202020")),
        font_style: Some(String::from("bold")),
    };
    assert_eq!(
        entry.css_entry("pre > code", ".keyword"),
        "pre > code .keyword {\n\tcolor: #ffffff;\n\tbackground-color: #202020;\n\tfont-weight: bold;\n}\n"
    );
}

#[test]
fn css_entry_skips_absent_fields_and_unknown_styles() {
    let entry = StyleEntry {
        scope: None,
        foreground: None,
        background: None,
        font_style: Some(String::from("wavy")),
    };
    assert_eq!(entry.css_entry("pre", ".x"), "pre .x {\n}\n");
    let italic = StyleEntry {
        font_style: Some(String::from("italic")),
        ..Default::default()
    };
    assert_eq!(italic.css_entry("pre", ".x"), "pre .x {\n\tfont-style: italic;\n}\n");
}

#[test]
fn css_entries_without_scope_cover_everything() {
    let entry = StyleEntry {
        foreground: Some(String::from("#abc")),
        ..Default::default()
    };
    let rules = entry.css_entries("pre > code");
    assert_eq!(rules, vec!["pre > code * {\n\tcolor: #abc;\n}\n"]);
}

#[test]
fn css_entries_split_and_dot_the_scopes() {
    let entry = StyleEntry {
        scope: Some(String::from("keyword.operator, meta(ignored), source string")),
        foreground: Some(String::from("#abc")),
        ..Default::default()
    };
    let rules = entry.css_entries("pre");
    assert_eq!(rules.len(), 2);
    assert_eq!(rules[0], "pre .keyword.operator {\n\tcolor: #abc;\n}\n");
    assert_eq!(rules[1], "pre .source .string {\n\tcolor: #abc;\n}\n");
}
