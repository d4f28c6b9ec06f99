use techou::reload::{Debouncer, is_hidden};

#[test]
fn debounce_burst_fires_once() {
    let mut d = Debouncer::new(400);
    d.on_event("posts/a.md", 0);
    d.on_event("posts/b.md", 100);
    d.on_event("posts/c.md", 200);
    // Still inside the window: nothing fires.
    assert!(d.poll(300).is_none());
    assert!(d.poll(599).is_none());
    // The window has run out: exactly one trigger, for the last path.
    let fired = d.poll(600);
    assert_eq!(fired.unwrap(), "posts/c.md");
    // Quiet again: a second check triggers nothing.
    assert!(d.poll(700).is_none());
    assert!(d.poll(10_000).is_none());
}

#[test]
fn debounce_later_event_fires_again() {
    let mut d = Debouncer::new(400);
    d.on_event("posts/a.md", 0);
    assert_eq!(d.poll(400).unwrap(), "posts/a.md");
    // An event after the window closed starts an independent countdown.
    d.on_event("posts/b.md", 1000);
    assert!(d.poll(1399).is_none());
    assert_eq!(d.poll(1400).unwrap(), "posts/b.md");
}

#[test]
fn hidden_file_never_starts_the_timer() {
    let mut d = Debouncer::new(400);
    d.on_event("posts/.swapfile", 0);
    assert!(d.poll(10_000).is_none());
}

#[test]
fn hidden_file_never_resets_the_timer() {
    let mut d = Debouncer::new(400);
    d.on_event("posts/a.md", 0);
    // A hidden-file change must not push the deadline out.
    d.on_event("posts/.swapfile", 399);
    assert_eq!(d.poll(400).unwrap(), "posts/a.md");
}

#[test]
fn hidden_detection() {
    assert!(is_hidden("posts/.swapfile"));
    assert!(is_hidden(".git"));
    assert!(!is_hidden("posts/article.md"));
    assert!(!is_hidden("posts.hidden/article.md"));
}
