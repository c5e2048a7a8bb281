use russ::error::Error;
use russ::modes::ReadMode;
use russ::rss::{Entry, Feed, FeedKind, RemoteEntry};
use russ::store::{
    add_entries_to_feed, create_feed, get_entries_links, get_entries_metas, get_entry_content,
    get_feed, get_feed_ids, get_feed_url, get_feeds, set_read_at, update_feed_refreshed_at,
    FeedStore,
};

fn feed(title: Option<&str>, url: &str) -> Feed {
    Feed {
        id: 0,
        title: title.map(|t| t.to_string()),
        feed_link: Some(url.to_string()),
        link: None,
        feed_kind: FeedKind::Rss,
        refreshed_at: None,
        inserted_at: 0,
        updated_at: 0,
    }
}

fn remote(link: Option<&str>, pub_date: Option<i64>) -> RemoteEntry {
    RemoteEntry {
        title: Some("t".to_string()),
        author: None,
        pub_date,
        description: Some("d".to_string()),
        content: None,
        link: link.map(|l| l.to_string()),
    }
}

fn ids(v: &[russ::rss::EntryMeta]) -> Vec<i64> {
    v.iter().map(|m| m.id).collect()
}

#[test]
fn feeds_are_listed_by_title_ignoring_case_untitled_first() {
    let mut store = FeedStore::new();
    create_feed(&mut store, &feed(Some("beta"), "u1"), 1).unwrap();
    create_feed(&mut store, &feed(Some("Alpha"), "u2"), 1).unwrap();
    create_feed(&mut store, &feed(None, "u3"), 1).unwrap();
    create_feed(&mut store, &feed(Some("ALPHA"), "u4"), 1).unwrap();
    let titles: Vec<Option<String>> = get_feeds(&store).into_iter().map(|f| f.title).collect();
    assert_eq!(
        titles,
        vec![None, Some("Alpha".to_string()), Some("ALPHA".to_string()), Some("beta".to_string())]
    );
    assert_eq!(get_feed_ids(&store), vec![3, 2, 4, 1]);
}

#[test]
fn a_feed_needs_a_source_url() {
    let mut store = FeedStore::new();
    assert_eq!(create_feed(&mut store, &feed(Some("x"), ""), 1), Err(Error::StorageError));
    let mut f = feed(Some("x"), "u");
    f.feed_link = None;
    assert_eq!(create_feed(&mut store, &f, 1), Err(Error::StorageError));
    assert_eq!(store.feeds.len(), 0);
}

#[test]
fn missing_feeds_and_entries_are_not_found() {
    let mut store = FeedStore::new();
    assert!(matches!(get_feed(&store, 1), Err(Error::NotFound)));
    assert_eq!(get_feed_url(&store, 1), Err(Error::NotFound));
    assert!(matches!(get_entry_content(&store, 1), Err(Error::NotFound)));
    assert_eq!(set_read_at(&mut store, 1, Some(1)), Err(Error::NotFound));
    assert_eq!(update_feed_refreshed_at(&mut store, 1, 1), Err(Error::NotFound));
    assert_eq!(add_entries_to_feed(&mut store, 1, &vec![remote(None, None)], 1), Err(Error::NotFound));
    assert_eq!(store.entries.len(), 0);
}

#[test]
fn entries_are_listed_newest_first_undated_last() {
    let mut store = FeedStore::new();
    let id = create_feed(&mut store, &feed(Some("f"), "u"), 1).unwrap();
    add_entries_to_feed(
        &mut store,
        id,
        &vec![remote(Some("a"), Some(10)), remote(Some("b"), None), remote(Some("c"), Some(30))],
        5,
    )
    .unwrap();
    add_entries_to_feed(&mut store, id, &vec![remote(Some("d"), None), remote(Some("e"), Some(20))], 6)
        .unwrap();
    let listed = get_entries_metas(&store, &ReadMode::All, id);
    assert_eq!(ids(&listed), vec![3, 5, 1, 4, 2]);
    let stored: &Entry = &store.entries[0];
    assert_eq!(stored.feed_id, id);
    assert_eq!(stored.read_at, None);
    assert_eq!(stored.inserted_at, 5);
    assert_eq!(get_feed_url(&store, id), Ok("u".to_string()));
    let c = get_entry_content(&store, 2).unwrap();
    assert_eq!(c.description.as_deref(), Some("d"));
    assert_eq!(c.content, None);
}

#[test]
fn read_and_unread_lists_split_the_full_list() {
    let mut store = FeedStore::new();
    let id = create_feed(&mut store, &feed(Some("f"), "u"), 1).unwrap();
    let other = create_feed(&mut store, &feed(Some("g"), "v"), 1).unwrap();
    let es: Vec<RemoteEntry> = (0..6).map(|i| remote(Some(&format!("l{i}")), Some(i))).collect();
    add_entries_to_feed(&mut store, id, &es, 2).unwrap();
    add_entries_to_feed(&mut store, other, &es, 2).unwrap();
    set_read_at(&mut store, 2, Some(9)).unwrap();
    set_read_at(&mut store, 5, Some(9)).unwrap();
    let mut unread = ids(&get_entries_metas(&store, &ReadMode::ShowUnread, id));
    let read = ids(&get_entries_metas(&store, &ReadMode::ShowRead, id));
    let all = ids(&get_entries_metas(&store, &ReadMode::All, id));
    assert_eq!(read, vec![5, 2]);
    assert!(unread.iter().all(|u| !read.contains(u)));
    unread.extend(read);
    unread.sort();
    let mut all_sorted = all.clone();
    all_sorted.sort();
    assert_eq!(unread, all_sorted);
    assert_eq!(all.len(), 6);
    let mut unread_links = get_entries_links(&store, &ReadMode::ShowUnread, id);
    unread_links.sort();
    assert_eq!(unread_links, vec!["l0", "l2", "l3", "l5"]);
}

#[test]
fn marking_read_then_unread_restores_the_entry() {
    let mut store = FeedStore::new();
    let id = create_feed(&mut store, &feed(Some("f"), "u"), 1).unwrap();
    add_entries_to_feed(&mut store, id, &vec![remote(Some("a"), None)], 2).unwrap();
    set_read_at(&mut store, 1, Some(3)).unwrap();
    assert_eq!(ids(&get_entries_metas(&store, &ReadMode::ShowRead, id)), vec![1]);
    assert_eq!(get_entries_metas(&store, &ReadMode::ShowUnread, id).len(), 0);
    set_read_at(&mut store, 1, None).unwrap();
    assert_eq!(ids(&get_entries_metas(&store, &ReadMode::ShowUnread, id)), vec![1]);
    assert_eq!(get_entries_metas(&store, &ReadMode::ShowRead, id).len(), 0);
}

#[test]
fn stores_load_only_well_formed_rows() {
    let mut store = FeedStore::new();
    let id = create_feed(&mut store, &feed(Some("f"), "u"), 1).unwrap();
    add_entries_to_feed(&mut store, id, &vec![remote(Some("a"), None)], 2).unwrap();
    let loaded = FeedStore::load(store.feeds.clone(), store.entries.clone()).unwrap();
    assert_eq!(loaded.next_feed_id, 2);
    assert_eq!(loaded.next_entry_id, 2);
    let mut orphan = store.entries.clone();
    orphan[0].feed_id = 9;
    assert!(matches!(FeedStore::load(store.feeds.clone(), orphan), Err(Error::StorageError)));
    let mut unordered = vec![store.feeds[0].clone(), store.feeds[0].clone()];
    unordered[1].id = 1;
    assert!(matches!(FeedStore::load(unordered, vec![]), Err(Error::StorageError)));
}

#[test]
fn feed_kinds_have_stored_names() {
    assert_eq!(FeedKind::Atom.as_str(), "Atom");
    assert_eq!(FeedKind::Rss.as_str(), "RSS");
    assert_eq!(FeedKind::parse("RSS"), Some(FeedKind::Rss));
    assert_eq!(FeedKind::parse("Atom"), Some(FeedKind::Atom));
    assert_eq!(FeedKind::parse("rss"), None);
    let e: Result<FeedKind, Error> = "xml".parse();
    assert_eq!(e, Err(Error::FeedKindError("xml".to_string())));
}

#[test]
fn deleting_a_feed_removes_its_entries_only() {
    let mut store = FeedStore::new();
    let a = create_feed(&mut store, &feed(Some("a"), "u"), 1).unwrap();
    let b = create_feed(&mut store, &feed(Some("b"), "v"), 1).unwrap();
    add_entries_to_feed(&mut store, a, &vec![remote(Some("x"), None)], 2).unwrap();
    add_entries_to_feed(&mut store, b, &vec![remote(Some("y"), None)], 2).unwrap();
    russ::store::delete_feed(&mut store, a).unwrap();
    assert_eq!(get_feed_ids(&store), vec![b]);
    assert_eq!(store.entries.len(), 1);
    assert_eq!(store.entries[0].feed_id, b);
    assert_eq!(russ::store::delete_feed(&mut store, a), Err(Error::NotFound));
    let c = create_feed(&mut store, &feed(Some("c"), "w"), 3).unwrap();
    assert_eq!(c, 3);
}

#[test]
fn titles_fold_only_ascii_capitals() {
    let mut store = FeedStore::new();
    create_feed(&mut store, &feed(Some("émile"), "u1"), 1).unwrap();
    create_feed(&mut store, &feed(Some("Zed"), "u2"), 1).unwrap();
    create_feed(&mut store, &feed(Some("Émile"), "u3"), 1).unwrap();
    create_feed(&mut store, &feed(Some("apple"), "u4"), 1).unwrap();
    assert_eq!(get_feed_ids(&store), vec![4, 2, 3, 1]);
}

#[test]
fn changes_since_a_mark_name_new_and_changed_rows() {
    let mut store = FeedStore::new();
    let a = create_feed(&mut store, &feed(Some("a"), "u"), 1).unwrap();
    add_entries_to_feed(&mut store, a, &vec![remote(Some("x"), None), remote(Some("y"), None)], 2)
        .unwrap();
    let mark = store.mark();
    set_read_at(&mut store, 2, Some(5)).unwrap();
    update_feed_refreshed_at(&mut store, a, 6).unwrap();
    add_entries_to_feed(&mut store, a, &vec![remote(Some("z"), None)], 7).unwrap();
    create_feed(&mut store, &feed(Some("b"), "v"), 8).unwrap();
    let changes = store.changes_since(&mark);
    assert_eq!(changes.new_feeds_from, 1);
    assert_eq!(changes.new_entries_from, 2);
    assert_eq!(changes.touched_feeds, vec![0]);
    assert_eq!(changes.toggled_entries, vec![1]);
    let unchanged = store.changes_since(&store.mark());
    assert_eq!(unchanged.new_entries_from, 3);
    assert!(unchanged.touched_feeds.is_empty() && unchanged.toggled_entries.is_empty());
}

#[test]
fn inserting_no_entries_does_nothing() {
    let mut store = FeedStore::new();
    assert_eq!(add_entries_to_feed(&mut store, 9, &vec![], 1), Ok(()));
    let a = create_feed(&mut store, &feed(Some("a"), "u"), 1).unwrap();
    assert_eq!(add_entries_to_feed(&mut store, a, &vec![], 1), Ok(()));
    assert_eq!(store.entries.len(), 0);
    assert_eq!(store.next_entry_id, 1);
}
