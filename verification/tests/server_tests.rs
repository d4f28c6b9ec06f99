use techou::server::{self, BrowserAction, WsCommand};
use techou::config::Config;

#[test]
fn reload_script_carries_the_socket_path() {
    let config = Config::new("/tmp");
    let code = server::auto_reload_code(&config);
    assert!(code.contains("<script"));
    assert!(code.contains("'/ws/'"));
    assert!(code.contains("document.location.reload()"));
}

#[test]
fn pages_are_amended_at_the_end() {
    let page = String::from("<html><body>hi</body></html>");
    let amended = server::amend_page(page, "<script>x</script>");
    assert_eq!(amended, "<html><body>hi</body></html><script>x</script>");
}

#[test]
fn rebuild_outcomes_become_events() {
    let ok = server::reload_outcome(Vec::new());
    assert!(matches!(ok, Ok(BrowserAction::Reload)));
    let failed = server::reload_outcome(vec![String::from("boom")]);
    match failed {
        Err(Some(msgs)) => assert_eq!(msgs, vec![String::from("boom")]),
        _ => panic!("expected the failure variant"),
    }
}

#[test]
fn connection_loop_decisions() {
    // Quiet turns accumulate until a heartbeat is due.
    let (cmd, counter) = server::websocket_step(None, 0);
    assert_eq!(cmd, WsCommand::Wait);
    assert_eq!(counter, 1);
    let (cmd, counter) = server::websocket_step(None, 10);
    assert_eq!(cmd, WsCommand::Wait);
    assert_eq!(counter, 11);
    let (cmd, counter) = server::websocket_step(None, 11);
    assert_eq!(cmd, WsCommand::Heartbeat);
    assert_eq!(counter, 0);
    // A reload event sends the reload instruction.
    let reload = Ok(BrowserAction::Reload);
    let (cmd, _) = server::websocket_step(Some(&reload), 3);
    assert_eq!(cmd, WsCommand::SendReload);
    // A failed rebuild reports errors.
    let failed: techou::server::BrowserResult = Err(Some(vec![String::from("e")]));
    let (cmd, _) = server::websocket_step(Some(&failed), 3);
    assert_eq!(cmd, WsCommand::SendErrors);
    // A malformed event is skipped.
    let odd: techou::server::BrowserResult = Err(None);
    let (cmd, _) = server::websocket_step(Some(&odd), 3);
    assert_eq!(cmd, WsCommand::Skip);
}

#[test]
fn template_changes_force_everything_stale() {
    assert!(techou::executor::should_force_all(
        Some("/site/public/post.html"),
        "public"
    ));
    assert!(!techou::executor::should_force_all(
        Some("/site/posts/entry.md"),
        "public"
    ));
    assert!(!techou::executor::should_force_all(None, "public"));
}

#[test]
fn marking_stale_touches_every_document() {
    let mut docs = vec![];
    for i in 0..3 {
        docs.push(techou::document::Document {
            identifier: format!("d{}", i),
            filename: String::new(),
            info: techou::front_matter::FrontMatter {
                title: String::new(),
                tags: Vec::new(),
                keywords: Vec::new(),
                created: String::new(),
                description: String::new(),
                description_html: String::new(),
                published: true,
                slug: None,
                meta: Vec::new(),
                created_timestamp: 0,
                date_info: Default::default(),
                identifier: String::new(),
            },
            slug: String::new(),
            content: String::new(),
            raw_content: String::new(),
            sections: Vec::new(),
            similar_documents: Vec::new(),
            previous_document: None,
            next_document: None,
            updated: false,
        });
    }
    techou::executor::mark_all_updated(&mut docs);
    assert!(docs.iter().all(|d| d.updated));
    assert_eq!(docs[1].identifier, "d1");
}
