use russ::app::AppImpl;
use russ::error::Error;
use russ::modes::{Mode, ReadMode, Selected};
use russ::rss::{Feed, FeedKind, RemoteEntry};
use russ::store::{add_entries_to_feed, create_feed, set_read_at, FeedStore};
use russ::util::StatefulList;

/// Renders the body of the entry just opened, as the terminal front end does.
fn render(app: &mut AppImpl) {
    if let Some(html) = app.entry_html.clone() {
        app.set_entry_text(html2text::from_read(html.as_bytes(), app.entry_wrap_width));
    }
}

fn feed(title: &str) -> Feed {
    Feed {
        id: 0,
        title: Some(title.to_string()),
        feed_link: Some(format!("http://example.org/{title}")),
        link: Some(format!("http://site/{title}")),
        feed_kind: FeedKind::Atom,
        refreshed_at: None,
        inserted_at: 0,
        updated_at: 0,
    }
}

fn entry(i: i64, content: Option<&str>) -> RemoteEntry {
    RemoteEntry {
        title: Some(format!("e{i}")),
        author: None,
        pub_date: Some(100 - i),
        description: None,
        content: content.map(|c| c.to_string()),
        link: Some(format!("http://example.org/e{i}")),
    }
}

/// A store with feed "a" holding three entries and an empty feed "b".
fn store() -> FeedStore {
    let mut s = FeedStore::new();
    let a = create_feed(&mut s, &feed("a"), 1).unwrap();
    create_feed(&mut s, &feed("b"), 1).unwrap();
    let es: Vec<RemoteEntry> = (0..3).map(|i| entry(i, Some("<p>Hello</p><p>World</p>"))).collect();
    add_entries_to_feed(&mut s, a, &es, 2).unwrap();
    s
}

#[test]
fn a_session_starts_on_the_feed_list_with_unread_entries() {
    let s = store();
    let app = AppImpl::new(&s).unwrap();
    assert!(matches!(app.selected(), Selected::Feeds));
    assert_eq!(app.mode(), Mode::Normal);
    assert_eq!(app.read_mode, ReadMode::ShowUnread);
    assert_eq!(app.feeds.selected(), Some(0));
    assert_eq!(app.current_feed.as_ref().unwrap().id, 1);
    assert_eq!(app.entries.items.len(), 3);
    assert_eq!(app.entries.selected(), Some(0));
}

#[test]
fn moving_down_never_leaves_the_entry_list() {
    let s = store();
    let mut app = AppImpl::new(&s).unwrap();
    app.on_right(&s).unwrap();
    assert!(matches!(app.selected(), Selected::Entries));
    let mut seen = vec![];
    for _ in 0..7 {
        app.on_down(&s).unwrap();
        let i = app.entries.selected().unwrap();
        assert!(i < 3);
        seen.push(i);
    }
    assert_eq!(seen, vec![1, 2, 0, 1, 2, 0, 1]);
    app.on_up(&s).unwrap();
    app.on_up(&s).unwrap();
    assert_eq!(app.entries.selected(), Some(2));
    assert_eq!(app.entry_selection_position, 2);
}

#[test]
fn moving_in_an_empty_entry_list_does_nothing() {
    let s = store();
    let mut app = AppImpl::new(&s).unwrap();
    app.on_down(&s).unwrap();
    assert_eq!(app.current_feed.as_ref().unwrap().id, 2);
    assert_eq!(app.entries.items.len(), 0);
    app.on_right(&s).unwrap();
    assert!(matches!(app.selected(), Selected::Feeds));
    app.selected = Selected::Entries;
    app.on_down(&s).unwrap();
    app.on_up(&s).unwrap();
    assert_eq!(app.entries.selected(), None);
    assert_eq!(app.entries.items.len(), 0);
}

#[test]
fn empty_lists_keep_no_highlight() {
    let mut l: StatefulList<i64> = StatefulList::with_items(vec![]);
    l.next();
    l.previous();
    assert_eq!(l.selected(), None);
    let mut l = StatefulList::with_items(vec![1, 2]);
    l.previous();
    assert_eq!(l.selected(), Some(0));
    l.previous();
    assert_eq!(l.selected(), Some(1));
    l.unselect();
    assert_eq!(l.selected(), None);
}

#[test]
fn switching_to_read_entries_highlights_the_first() {
    let mut s = store();
    set_read_at(&mut s, 3, Some(5)).unwrap();
    let mut app = AppImpl::new(&s).unwrap();
    app.on_right(&s).unwrap();
    app.on_down(&s).unwrap();
    assert_eq!(app.entries.selected(), Some(1));
    assert!(app.entries.items[1].read_at.is_none());
    app.toggle_read_mode(&s).unwrap();
    assert_eq!(app.read_mode, ReadMode::ShowRead);
    assert_eq!(app.entries.items.len(), 1);
    assert_eq!(app.entries.items[0].id, 3);
    assert_eq!(app.entries.selected(), Some(0));
    app.toggle_read_mode(&s).unwrap();
    assert_eq!(app.read_mode, ReadMode::ShowUnread);
    assert_eq!(app.entries.selected(), Some(0));
}

#[test]
fn switching_to_an_empty_read_list_highlights_nothing() {
    let s = store();
    let mut app = AppImpl::new(&s).unwrap();
    app.on_right(&s).unwrap();
    app.toggle_read_mode(&s).unwrap();
    assert_eq!(app.read_mode, ReadMode::ShowRead);
    assert_eq!(app.entries.items.len(), 0);
    assert_eq!(app.entries.selected(), None);
}

#[test]
fn opening_an_entry_renders_its_body() {
    let s = store();
    let mut app = AppImpl::new(&s).unwrap();
    app.entry_column_width = 40;
    app.on_right(&s).unwrap();
    app.on_right(&s).unwrap();
    assert_eq!(app.entry_wrap_width, 36);
    assert_eq!(app.entry_html.as_deref(), Some("<p>Hello</p><p>World</p>"));
    render(&mut app);
    assert_eq!(app.entry_html, None);
    match app.selected() {
        Selected::Entry(m) => assert_eq!(m.id, 1),
        _ => panic!("expected an open entry"),
    }
    assert!(app.current_entry_text.contains("Hello"));
    assert!(app.current_entry_text.contains("World"));
    assert_eq!(app.entry_lines_len, app.current_entry_text.matches('\n').count());
    assert!(app.entry_lines_len >= 2);
    for _ in 0..app.entry_lines_len + 3 {
        app.on_down(&s).unwrap();
    }
    assert_eq!(app.entry_scroll_position as usize, app.entry_lines_len);
    app.entry_scroll_position = 2;
    app.on_up(&s).unwrap();
    app.on_up(&s).unwrap();
    app.on_up(&s).unwrap();
    assert_eq!(app.entry_scroll_position, 0);
    app.entry_lines_rendered_len = 10;
    app.page_down();
    assert_eq!(app.entry_scroll_position as usize, app.entry_lines_len.min(10));
    app.page_up();
    assert_eq!(app.entry_scroll_position, 0);
    app.on_left();
    assert!(matches!(app.selected(), Selected::Entries));
    assert_eq!(app.current_entry_text, "");
    app.on_left();
    assert!(matches!(app.selected(), Selected::Feeds));
}

#[test]
fn an_entry_without_a_body_shows_the_placeholder() {
    let mut s = FeedStore::new();
    let a = create_feed(&mut s, &feed("a"), 1).unwrap();
    add_entries_to_feed(&mut s, a, &vec![entry(0, None)], 2).unwrap();
    let mut app = AppImpl::new(&s).unwrap();
    app.entry_column_width = 80;
    app.on_right(&s).unwrap();
    app.on_enter(&s).unwrap();
    assert_eq!(app.entry_html.as_deref(), Some("No content or description tag provided."));
    assert_eq!(app.entry_wrap_width, 76);
    render(&mut app);
    assert!(app.current_entry_text.contains("No content or description tag provided."));
}

#[test]
fn toggling_read_hides_the_entry_and_keeps_the_position() {
    let mut s = store();
    let mut app = AppImpl::new(&s).unwrap();
    app.on_right(&s).unwrap();
    app.on_down(&s).unwrap();
    app.on_down(&s).unwrap();
    assert_eq!(app.entries.selected(), Some(2));
    app.toggle_read(&mut s, 50).unwrap();
    assert_eq!(s.entries[2].read_at, Some(50));
    assert_eq!(app.entries.items.len(), 2);
    assert_eq!(app.entries.selected(), Some(1));
    assert_eq!(app.entry_selection_position, 1);
    app.on_enter(&s).unwrap();
    app.toggle_read(&mut s, 60).unwrap();
    assert!(matches!(app.selected(), Selected::Entries));
    assert_eq!(app.entries.items.len(), 1);
}

#[test]
fn links_follow_the_selection() {
    let s = store();
    let mut app = AppImpl::new(&s).unwrap();
    assert_eq!(app.get_current_link(), "http://site/a");
    app.on_right(&s).unwrap();
    assert_eq!(app.get_current_link(), "http://example.org/e0");
    app.on_enter(&s).unwrap();
    assert_eq!(app.get_current_link(), "http://example.org/e0");
}

#[test]
fn the_subscription_input_is_kept_on_failure() {
    let s = store();
    let mut app = AppImpl::new(&s).unwrap();
    app.set_mode(Mode::Editing);
    for c in "http://x".chars() {
        app.push_feed_subscription_input(c);
    }
    app.pop_feed_subscription_input();
    assert_eq!(app.feed_subscription_input(), "http://");
    app.subscribed(&s, Err(Error::NetworkError("down".to_string()))).unwrap();
    assert_eq!(app.feed_subscription_input(), "http://");
    assert_eq!(app.error_flash, vec!["network error: down".to_string()]);
    assert!(!app.error_flash_is_empty());
    app.clear_error_flash();
    assert!(app.error_flash_is_empty());
    app.subscribed(&s, Ok(1)).unwrap();
    assert_eq!(app.feed_subscription_input(), "");
    assert_eq!(app.mode(), Mode::Normal);
    assert!(matches!(app.selected(), Selected::Feeds));
}

#[test]
fn flashes_and_help_toggle() {
    let s = store();
    let mut app = AppImpl::new(&s).unwrap();
    app.set_flash("Refreshing".to_string());
    assert_eq!(app.flash.as_deref(), Some("Refreshing"));
    app.clear_flash();
    assert_eq!(app.flash, None);
    let h = app.show_help;
    app.toggle_help();
    assert_eq!(app.show_help, !h);
    assert_eq!(app.selected_feed_id(), 1);
    assert_eq!(app.feed_ids(&s), vec![1, 2]);
}

#[test]
fn deleting_the_highlighted_feed_shows_the_rest() {
    let mut s = store();
    let mut app = AppImpl::new(&s).unwrap();
    app.on_right(&s).unwrap();
    app.on_left();
    app.delete_feed(&mut s).unwrap();
    assert!(matches!(app.selected(), Selected::Feeds));
    assert_eq!(app.feeds.items.len(), 1);
    assert_eq!(app.current_feed.as_ref().unwrap().id, 2);
    assert_eq!(app.entries.items.len(), 0);
    assert_eq!(s.entries.len(), 0);
}

#[test]
fn a_refresh_of_another_feed_changes_nothing_visible() {
    let mut s = store();
    let mut app = AppImpl::new(&s).unwrap();
    add_entries_to_feed(&mut s, 1, &vec![entry(7, None)], 3).unwrap();
    app.on_refresh_completed(&s, &vec![2]).unwrap();
    assert_eq!(app.entries.items.len(), 3);
    app.on_refresh_completed(&s, &vec![2, 1]).unwrap();
    assert_eq!(app.entries.items.len(), 4);
}

#[test]
fn a_narrow_column_wraps_at_one_column() {
    let s = store();
    let mut app = AppImpl::new(&s).unwrap();
    app.entry_column_width = 3;
    app.on_right(&s).unwrap();
    app.on_enter(&s).unwrap();
    assert_eq!(app.entry_wrap_width, 1);
}

#[test]
fn actions_on_an_empty_entry_list_change_nothing() {
    let s = store();
    let mut app = AppImpl::new(&s).unwrap();
    app.on_down(&s).unwrap();
    app.selected = Selected::Entries;
    let pos = app.entry_selection_position;
    let meta = app.current_entry_meta.as_ref().map(|m| m.id);
    app.on_enter(&s).unwrap();
    app.on_right(&s).unwrap();
    app.on_down(&s).unwrap();
    app.on_up(&s).unwrap();
    assert!(matches!(app.selected(), Selected::Entries));
    assert_eq!(app.entry_selection_position, pos);
    assert_eq!(app.current_entry_meta.as_ref().map(|m| m.id), meta);
    assert_eq!(app.entries.selected(), None);
}

#[test]
fn toggling_an_open_entry_clamps_the_position() {
    let mut s = store();
    let mut app = AppImpl::new(&s).unwrap();
    app.on_right(&s).unwrap();
    app.on_down(&s).unwrap();
    app.on_down(&s).unwrap();
    app.on_enter(&s).unwrap();
    assert_eq!(app.entry_selection_position, 2);
    app.toggle_read(&mut s, 9).unwrap();
    assert!(matches!(app.selected(), Selected::Entries));
    assert_eq!(app.entries.items.len(), 2);
    assert_eq!(app.entry_selection_position, 1);
    assert_eq!(app.entries.selected(), Some(1));
}
