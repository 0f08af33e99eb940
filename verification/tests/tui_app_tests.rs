use hamster::setup::{FolderRule, FolderTagsConfig, HamsterConfig};
use hamster::tui_app::{App, Effect, Focus, InputMode, Key, MailRow, Mods, RelTime};

fn row(subject: &str, date_ts: i64, tags: &[&str], path: &str, id: &str) -> MailRow {
    MailRow {
        subject: subject.to_string(),
        from: "a@x".to_string(),
        date_ts,
        tags: tags.iter().map(|t| t.to_string()).collect(),
        path: path.to_string(),
        message_id: id.to_string(),
    }
}

fn app_with_rows(rows: Vec<MailRow>) -> App {
    let mut app = App::new();
    app.finish_search(rows);
    app
}

fn key(app: &mut App, k: Key, m: Mods) -> Effect {
    app.handle_key(k, m, 20, 16)
}

#[test]
fn unread_rows_carry_the_unread_tag() {
    assert!(row("s", 1, &["inbox", "unread"], "/p", "i").is_unread());
    assert!(!row("s", 1, &["inbox"], "/p", "i").is_unread());
}

#[test]
fn date_column_is_relative() {
    let when = |days: i64, hours: i64, minutes: i64| RelTime {
        ymd: "2020-01-02".to_string(),
        days,
        hours,
        minutes,
    };
    assert_eq!(row("s", 0, &[], "", "").date_display(&when(1, 1, 1)), " ");
    assert_eq!(row("s", 5, &[], "", "").date_display(&when(400, 0, 0)), "2020-01-02");
    assert_eq!(row("s", 5, &[], "", "").date_display(&when(3, 80, 4000)), "  3d ago ");
    assert_eq!(row("s", 5, &[], "", "").date_display(&when(0, 12, 700)), " 12h ago ");
    assert_eq!(row("s", 5, &[], "", "").date_display(&when(0, 0, -3)), "  0m ago ");
}

#[test]
fn typing_debounces_and_enter_searches_and_saves_history() {
    let mut app = App::new();
    assert!(matches!(key(&mut app, Key::Char('h'), Mods::Plain), Effect::RestartDebounce));
    assert!(matches!(key(&mut app, Key::Char('i'), Mods::Plain), Effect::RestartDebounce));
    assert_eq!(app.search_input, "hi");
    assert!(app.search_pending);
    assert!(matches!(key(&mut app, Key::Enter, Mods::Plain), Effect::Search));
    assert!(!app.search_pending);
    assert_eq!(app.query_history, vec!["hi".to_string()]);
    // The same query is not saved twice.
    key(&mut app, Key::Enter, Mods::Plain);
    assert_eq!(app.query_history.len(), 1);
    assert!(matches!(key(&mut app, Key::Backspace, Mods::Plain), Effect::RestartDebounce));
    assert_eq!(app.search_input, "h");
}

#[test]
fn question_mark_opens_help_and_any_key_closes_it() {
    let mut app = App::new();
    key(&mut app, Key::Char('?'), Mods::Plain);
    assert!(app.show_help);
    // While the overlay is up, Ctrl-q does not quit.
    assert!(matches!(key(&mut app, Key::Char('q'), Mods::Ctrl), Effect::Nothing));
    assert!(!app.show_help);
    assert!(matches!(key(&mut app, Key::Char('q'), Mods::Ctrl), Effect::Quit));
}

#[test]
fn tab_cycles_focus() {
    let mut app = App::new();
    key(&mut app, Key::Tab, Mods::Plain);
    assert_eq!(app.focus, Focus::Filter);
    key(&mut app, Key::Tab, Mods::Plain);
    assert_eq!(app.focus, Focus::List);
    key(&mut app, Key::Tab, Mods::Plain);
    assert_eq!(app.focus, Focus::Search);
}

#[test]
fn search_results_are_newest_first_and_capped() {
    let rows: Vec<MailRow> = (0..250).map(|i| row("s", i, &[], "/p", "id")).collect();
    let mut app = App::new();
    assert!(app.finish_search(rows));
    assert_eq!(app.results.len(), 200);
    assert_eq!(app.results[0].date_ts, 249);
    assert_eq!(app.results[199].date_ts, 50);
    app.preview_visible = false;
    assert!(!app.finish_search(vec![]));
}

#[test]
fn untagged_filter_keeps_only_untagged_rows() {
    let mut app = App::new();
    app.active_filter = Some("__untagged__".to_string());
    assert_eq!(app.search_limit(), 1000);
    assert_eq!(app.required_tag(), None);
    app.finish_search(vec![row("a", 1, &["x"], "/a", "a"), row("b", 2, &[], "/b", "b")]);
    assert_eq!(app.results.len(), 1);
    assert_eq!(app.results[0].subject, "b");
    app.active_filter = Some("inbox".to_string());
    assert_eq!(app.search_limit(), 200);
    assert_eq!(app.required_tag(), Some("inbox".to_string()));
}

#[test]
fn list_navigation_scrolls_the_window() {
    let rows: Vec<MailRow> = (0..10).map(|i| row("s", 100 - i, &[], "/p", "id")).collect();
    let mut app = app_with_rows(rows);
    app.focus = Focus::List;
    for _ in 0..4 {
        assert!(matches!(app.handle_key(Key::Down, Mods::Plain, 3, 10), Effect::LoadPreview));
    }
    assert_eq!((app.selected, app.list_offset), (4, 2));
    app.handle_key(Key::Up, Mods::Plain, 3, 10);
    app.handle_key(Key::Up, Mods::Plain, 3, 10);
    app.handle_key(Key::Up, Mods::Plain, 3, 10);
    assert_eq!((app.selected, app.list_offset), (1, 1));
    app.handle_key(Key::End, Mods::Plain, 3, 10);
    assert_eq!((app.selected, app.list_offset), (9, 6));
    app.handle_key(Key::Char('b'), Mods::Ctrl, 3, 10);
    assert_eq!((app.selected, app.list_offset), (6, 3));
    app.handle_key(Key::Home, Mods::Plain, 3, 10);
    assert_eq!((app.selected, app.list_offset), (0, 0));
}

#[test]
fn tag_prompt_asks_for_a_rewrite() {
    let mut app = app_with_rows(vec![row("s", 1, &["inbox"], "/m/1", "id1")]);
    app.focus = Focus::List;
    key(&mut app, Key::Char('t'), Mods::Ctrl);
    assert_eq!(app.input_mode, InputMode::AddTag);
    for c in "work".chars() {
        key(&mut app, Key::Char(c), Mods::Plain);
    }
    match key(&mut app, Key::Enter, Mods::Plain) {
        Effect::RewriteTags(i, tags, status) => {
            assert_eq!(i, 0);
            assert_eq!(tags, vec!["inbox".to_string(), "work".to_string()]);
            assert_eq!(status, "✓ Added tag 'work'");
            app.finish_rewrite(i, Some(tags), status);
        }
        _ => panic!("expected a rewrite"),
    }
    assert_eq!(app.input_mode, InputMode::Normal);
    assert_eq!(app.results[0].tags, vec!["inbox".to_string(), "work".to_string()]);
    assert!(app.writer_dirty);
    assert_eq!(app.status_message, Some("✓ Added tag 'work'".to_string()));
}

#[test]
fn invalid_tag_is_refused_in_the_status_bar() {
    let mut app = app_with_rows(vec![row("s", 1, &[], "/m/1", "id1")]);
    assert!(matches!(app.apply_tag(true, " bad tag "), Effect::Nothing));
    assert_eq!(app.status_message, Some("⛔ Tag cannot contain spaces".to_string()));
    assert!(matches!(app.apply_tag(true, "   "), Effect::Nothing));
}

#[test]
fn archive_read_and_yank() {
    let mut app = app_with_rows(vec![row("s", 1, &["inbox", "unread", "x"], "/m/1", "")]);
    match app.archive_message() {
        Effect::RewriteTags(_, tags, status) => {
            assert_eq!(tags, vec!["x".to_string(), "archive".to_string()]);
            assert_eq!(status, "✓ Archived");
        }
        _ => panic!("expected a rewrite"),
    }
    match app.toggle_read_status() {
        Effect::RewriteTags(_, tags, status) => {
            assert_eq!(tags, vec!["inbox".to_string(), "x".to_string()]);
            assert_eq!(status, "✓ Marked as read");
        }
        _ => panic!("expected a rewrite"),
    }
    app.yank_message_id();
    assert_eq!(app.status_message, Some("📋 Yanked: /m/1".to_string()));

    let mut done = app_with_rows(vec![row("s", 1, &["archive"], "/m/2", "id2")]);
    assert!(matches!(done.archive_message(), Effect::Nothing));
    assert_eq!(done.status_message, Some("Already archived".to_string()));
    done.yank_message_id();
    assert_eq!(done.status_message, Some("📋 Yanked: id2".to_string()));
}

#[test]
fn history_goes_back_one_query_at_a_time() {
    let mut app = App::new();
    for q in ["one", "two"] {
        app.search_input = q.to_string();
        app.push_to_history();
    }
    assert!(matches!(app.history_backward(), Effect::Search));
    assert_eq!(app.search_input, "two");
    assert!(matches!(app.history_backward(), Effect::Search));
    assert_eq!(app.search_input, "one");
    assert!(matches!(app.history_backward(), Effect::Nothing));
    assert_eq!(app.history_index, Some(0));
}

#[test]
fn history_keeps_the_last_hundred() {
    let mut app = App::new();
    for i in 0..105 {
        app.search_input = format!("q{}", i);
        app.push_to_history();
    }
    assert_eq!(app.query_history.len(), 100);
    assert_eq!(app.query_history[0], "q5");
}

#[test]
fn filter_enter_toggles_and_esc_clears() {
    let config = HamsterConfig {
        name: String::new(),
        primary_email: String::new(),
        maildir: String::new(),
        folder_tags: FolderTagsConfig {
            enabled: true,
            managed_tags: vec![],
            sync_flags: false,
            rules: vec![FolderRule { pattern: "INBOX".to_string(), tags: vec!["inbox".to_string()], inherit: false }],
        },
        config_file: String::new(),
        index_dir: String::new(),
    };
    let mut app = App::new();
    app.refresh_filter_items(&config);
    app.focus = Focus::Filter;
    key(&mut app, Key::Char('j'), Mods::Plain);
    key(&mut app, Key::Char('j'), Mods::Plain);
    assert_eq!(app.filter_items[app.filter_selected].label, "inbox");
    assert!(matches!(key(&mut app, Key::Enter, Mods::Plain), Effect::Search));
    assert_eq!(app.active_filter, Some("inbox".to_string()));
    key(&mut app, Key::Enter, Mods::Plain);
    assert_eq!(app.active_filter, None);
    key(&mut app, Key::Enter, Mods::Plain);
    assert!(matches!(key(&mut app, Key::Esc, Mods::Plain), Effect::Search));
    assert_eq!(app.active_filter, None);
}

#[test]
fn explain_and_pager_use_the_file_path() {
    let mut app = app_with_rows(vec![row("s", 1, &[], "", "id")]);
    assert!(matches!(app.toggle_explain(), Effect::Nothing));
    assert_eq!(app.explain_text, Some("(no file path)".to_string()));
    assert_eq!(app.pager_path(), None);
    app.toggle_explain();
    assert_eq!(app.explain_text, None);

    let mut app = app_with_rows(vec![row("s", 1, &[], "/m/x", "id")]);
    assert!(matches!(app.toggle_explain(), Effect::Explain(p) if p == "/m/x"));
    assert_eq!(app.pager_path(), Some("/m/x".to_string()));
}

#[test]
fn query_outcomes_are_shown() {
    let mut app = App::new();
    app.search_input = "from:".to_string();
    assert_eq!(app.begin_search(), Some("from:".to_string()));
    app.reject_query("Syntax Error");
    assert_eq!(app.query_error, Some("Invalid query: Syntax Error".to_string()));
    app.search_input = "boss".to_string();
    app.accept_query();
    assert_eq!(app.parsed_query, Some("Searching: boss".to_string()));
    assert_eq!(app.query_error, None);
    app.search_input = "  ".to_string();
    assert_eq!(app.begin_search(), None);
    assert_eq!(app.parsed_query, None);
}

#[test]
fn html_preview_is_sanitised() {
    let mut app = app_with_rows(vec![row("s", 1, &[], "/m/x", "id")]);
    assert_eq!(app.preview_message_id(), Some("id".to_string()));
    assert!(app.show_preview("plain body".to_string()));
    assert_eq!(app.preview, Some("plain body".to_string()));
    let html = "  <p>Hello <b>hamster</b></p>".to_string();
    assert!(app.show_preview(html.clone()));
    let shown = app.preview.clone().unwrap();
    assert_ne!(shown, html);
    assert!(shown.contains("Hello"));
}

#[test]
fn action_chords_work_from_the_search_bar() {
    let mut app = app_with_rows(vec![row("s", 1, &["inbox"], "/m/1", "id1")]);
    assert_eq!(app.focus, Focus::Search);
    key(&mut app, Key::Char('t'), Mods::Ctrl);
    assert_eq!(app.input_mode, InputMode::AddTag);
    key(&mut app, Key::Esc, Mods::Plain);
    assert_eq!(app.input_mode, InputMode::Normal);
    let visible = app.preview_visible;
    key(&mut app, Key::Char('e'), Mods::Ctrl);
    assert_eq!(app.preview_visible, !visible);
    assert!(matches!(key(&mut app, Key::Char('d'), Mods::Ctrl), Effect::RewriteTags(..)));
    key(&mut app, Key::Char('y'), Mods::Ctrl);
    assert_eq!(app.status_message, Some("📋 Yanked: id1".to_string()));
    // A plain letter still goes into the search bar.
    key(&mut app, Key::Char('t'), Mods::Plain);
    assert_eq!(app.search_input, "t");
}
