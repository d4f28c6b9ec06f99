use techou::utils::{hash_string, slugify, collapse_whitespace};
use techou::strings;

#[test]
fn hash_string_is_a_sha256_prefix() {
    // SHA-256 of the empty string, first sixteen hex digits.
    assert_eq!(hash_string("", 16), "e3b0c44298fc1c14");
    // SHA-256 of "hello", first eight hex digits.
    assert_eq!(hash_string("hello", 8), "2cf24dba");
    assert_eq!(hash_string("hello", 0), "");
}

#[test]
fn slugify_builds_dashed_words() {
    assert_eq!(slugify("Hello World"), "hello-world");
    assert_eq!(slugify("  Hello,  World!  42 "), "hello-world-42");
    assert_eq!(slugify("Don't Panic"), "dont-panic");
    assert_eq!(slugify(""), "");
    assert_eq!(slugify("!!!"), "");
}

#[test]
fn collapse_whitespace_squeezes_runs() {
    assert_eq!(collapse_whitespace("a  b"), "a b");
    assert_eq!(collapse_whitespace("a \t b"), "a b");
    assert_eq!(collapse_whitespace("a b"), "a b");
    assert_eq!(collapse_whitespace("a\tb"), "a\tb");
    assert_eq!(collapse_whitespace("   "), " ");
    // The Unicode space marks count as whitespace too.
    assert_eq!(collapse_whitespace("a\u{a0}\u{2003}b"), "a b");
    assert_eq!(collapse_whitespace("a\u{b}\u{b}b"), "a b");
}

#[test]
fn hash_prefix_has_the_requested_length() {
    for length in [0usize, 1, 8, 16, 64] {
        assert_eq!(hash_string("some content", length).len(), length);
    }
}

#[test]
fn find_and_replace() {
    assert_eq!(strings::find_sub("abcdef", "cd"), Some(2));
    assert_eq!(strings::find_sub("abcdef", "xz"), None);
    assert_eq!(strings::find_sub("aaa", "aa"), Some(0));
    assert!(strings::contains_sub("public/post.html", "html"));
    assert!(!strings::contains_sub("public/post.css", "html"));
    assert_eq!(strings::replace_all("a.md b.md", ".md", ".html"), "a.html b.html");
    assert_eq!(strings::replace_all("nothing", ".md", ".html"), "nothing");
}

#[test]
fn path_joining() {
    assert_eq!(strings::join_path("root", "posts"), "root/posts");
    assert_eq!(strings::join_path("root/", "posts"), "root/posts");
    assert_eq!(strings::join_path("", "posts"), "posts");
    assert_eq!(strings::join_path("root", "/abs"), "/abs");
    assert_eq!(strings::file_name_of("a/b/c.md"), "c.md");
    assert_eq!(strings::file_name_of("c.md"), "c.md");
}

#[test]
fn numbers_to_text() {
    assert_eq!(strings::u64_to_string(0), "0");
    assert_eq!(strings::u64_to_string(2009), "2009");
    assert_eq!(strings::i64_to_string(-42), "-42");
    assert_eq!(strings::i32_to_string(7), "7");
    assert_eq!(strings::u32_to_string(12), "12");
}

#[test]
fn lexicographic_order() {
    assert!(strings::str_lt("abc", "abd"));
    assert!(strings::str_lt("ab", "abc"));
    assert!(!strings::str_lt("abc", "abc"));
    assert!(!strings::str_lt("b", "abc"));
}
