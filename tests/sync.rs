use russ::error::Error;
use russ::io::{chunkify_for_threads, refresh_feeds, summarize, FetchOutcome};
use russ::modes::ReadMode;
use russ::rss::FeedKind;
use russ::store::{get_entries_metas, get_entry_meta, get_feed, set_read_at, FeedStore};
use russ::sync::{parse_feed, read_feed, refresh_feed, subscribe_to_feed};

fn atom_doc(links: &[&str]) -> String {
    let mut s = String::from(
        "<?xml version=\"1.0\" encoding=\"utf-8\"?>\
         <feed xmlns=\"http://www.w3.org/2005/Atom\">\
         <title>Example Feed</title>\
         <link href=\"http://example.org/\"/>\
         <id>urn:example:feed</id>\
         <updated>2003-12-13T18:30:02Z</updated>",
    );
    for (i, l) in links.iter().enumerate() {
        s.push_str(&format!(
            "<entry><title>Entry {i}</title><link href=\"{l}\"/>\
             <id>urn:example:{i}</id><updated>2003-12-13T18:30:02Z</updated>\
             <published>2003-12-{:02}T18:30:02Z</published>\
             <author><name>Ann</name></author>\
             <content type=\"html\">&lt;p&gt;Body {i}&lt;/p&gt;</content></entry>",
            (i % 28) + 1
        ));
    }
    s.push_str("</feed>");
    s
}

const RSS_DOC: &str = "<?xml version=\"1.0\"?><rss version=\"2.0\"><channel>\
    <title>Channel</title><link>http://example.com/</link><description>d</description>\
    <item><title>a</title><link>http://example.com/a</link>\
    <pubDate>Mon, 2 Jan 2006 15:04:05 MST</pubDate><description>desc a</description></item>\
    <item><title>b</title><pubDate>not a date</pubDate></item>\
    </channel></rss>";

const URL: &str = "http://example.org/feed.xml";

fn links(n: usize) -> Vec<String> {
    (0..n).map(|i| format!("http://example.org/{i}")).collect()
}

fn strs(v: &[String]) -> Vec<&str> {
    v.iter().map(|s| s.as_str()).collect()
}

#[test]
fn it_fetches() {
    let l = links(3);
    let feed_and_entries = read_feed(&atom_doc(&strs(&l)), URL).unwrap();
    assert!(feed_and_entries.entries.len() > 0)
}

#[test]
fn it_subscribes_to_a_feed() {
    let mut store = FeedStore::new();
    let l = links(60);
    subscribe_to_feed(&mut store, URL, &atom_doc(&strs(&l)), 100).unwrap();
    let count = store.entries.len();
    assert!(count > 50)
}

#[test]
fn refresh_feed_does_not_add_any_items_if_there_are_no_new_items() {
    let mut store = FeedStore::new();
    let l = links(10);
    let doc = atom_doc(&strs(&l));
    subscribe_to_feed(&mut store, URL, &doc, 100).unwrap();
    let feed_id = 1;
    let old_entries = get_entries_metas(&store, &ReadMode::ShowUnread, feed_id);
    refresh_feed(&mut store, feed_id, &doc, 200).unwrap();
    let e = get_entry_meta(&store, 1).unwrap();
    e.toggle_read(&mut store, 300).unwrap();
    let new_entries = get_entries_metas(&store, &ReadMode::ShowUnread, feed_id);
    assert_eq!(new_entries.len(), old_entries.len() - 1);
}

#[test]
fn atom_documents_are_read_as_atom() {
    let d = parse_feed(&atom_doc(&["http://example.org/x"])).unwrap();
    assert_eq!(d.feed.feed_kind, FeedKind::Atom);
    assert_eq!(d.feed.title.as_deref(), Some("Example Feed"));
    assert_eq!(d.feed.link.as_deref(), Some("http://example.org/"));
    assert_eq!(d.feed.feed_link, None);
    assert_eq!(d.entries.len(), 1);
    let e = &d.entries[0];
    assert_eq!(e.title.as_deref(), Some("Entry 0"));
    assert_eq!(e.author.as_deref(), Some("Ann"));
    assert_eq!(e.link.as_deref(), Some("http://example.org/x"));
    assert_eq!(e.content.as_deref(), Some("<p>Body 0</p>"));
    assert_eq!(e.pub_date, Some(1070303402));
    assert_eq!(e.description, None);
}

#[test]
fn rss_documents_are_read_as_rss() {
    let d = read_feed(RSS_DOC, URL).unwrap();
    assert_eq!(d.feed.feed_kind, FeedKind::Rss);
    assert_eq!(d.feed.title.as_deref(), Some("Channel"));
    assert_eq!(d.feed.link.as_deref(), Some("http://example.com/"));
    assert_eq!(d.feed.feed_link.as_deref(), Some(URL));
    assert_eq!(d.entries.len(), 2);
    assert_eq!(d.entries[0].link.as_deref(), Some("http://example.com/a"));
    assert_eq!(d.entries[0].description.as_deref(), Some("desc a"));
    assert_eq!(d.entries[0].pub_date, Some(1136239445));
    assert_eq!(d.entries[1].pub_date, None);
    assert_eq!(d.entries[1].link, None);
}

fn rss_with_date(date: &str) -> String {
    format!(
        "<?xml version=\"1.0\"?><rss version=\"2.0\"><channel><title>c</title>\
         <link>http://example.com/</link><description>d</description>\
         <item><title>a</title><pubDate>{date}</pubDate></item></channel></rss>"
    )
}

#[test]
fn dates_in_many_formats_are_read() {
    let date_of = |d: &str| parse_feed(&rss_with_date(d)).unwrap().entries[0].pub_date;
    assert_eq!(date_of("2006-01-02T22:04:05Z"), Some(1136239445));
    assert_eq!(date_of("Mon, 2 Jan 2006 15:04:05 MST"), Some(1136239445));
    assert_eq!(date_of("Apr 21 2016"), Some(1461196800));
    assert_eq!(date_of("Yesterday"), None);
}

#[test]
fn unrecognized_documents_are_refused() {
    assert!(matches!(parse_feed("<html></html>"), Err(Error::UnrecognizedFeedFormat)));
    let mut store = FeedStore::new();
    assert_eq!(
        subscribe_to_feed(&mut store, URL, "not xml", 1),
        Err(Error::UnrecognizedFeedFormat)
    );
    assert_eq!(store.feeds.len(), 0);
}

#[test]
fn refreshing_an_unknown_feed_is_not_found() {
    let mut store = FeedStore::new();
    assert_eq!(refresh_feed(&mut store, 7, RSS_DOC, 1), Err(Error::NotFound));
}

#[test]
fn subscribing_with_an_empty_url_is_a_storage_error() {
    let mut store = FeedStore::new();
    assert_eq!(subscribe_to_feed(&mut store, "", RSS_DOC, 1), Err(Error::StorageError));
}

#[test]
fn refreshing_twice_from_the_same_document_stores_nothing_more() {
    let mut store = FeedStore::new();
    let l = links(4);
    let doc = atom_doc(&strs(&l));
    let id = subscribe_to_feed(&mut store, URL, &atom_doc(&strs(&l[..2])), 1).unwrap();
    assert_eq!(refresh_feed(&mut store, id, &doc, 2), Ok(2));
    assert_eq!(refresh_feed(&mut store, id, &doc, 3), Ok(0));
    assert_eq!(store.entries.len(), 4);
    assert_eq!(get_feed(&store, id).unwrap().refreshed_at, Some(3));
}

#[test]
fn entries_without_a_link_are_always_new() {
    let mut store = FeedStore::new();
    let id = subscribe_to_feed(&mut store, URL, RSS_DOC, 1).unwrap();
    assert_eq!(store.entries.len(), 2);
    assert_eq!(refresh_feed(&mut store, id, RSS_DOC, 2), Ok(1));
    assert_eq!(store.entries.len(), 3);
    assert_eq!(store.entries[2].link, None);
}

#[test]
fn subscribe_then_refresh_with_one_more_link_adds_only_it() {
    let mut store = FeedStore::new();
    let five = ["a", "b", "c", "d", "e"].map(|x| format!("http://example.org/{x}"));
    let six = ["a", "b", "c", "d", "e", "f"].map(|x| format!("http://example.org/{x}"));
    let id = subscribe_to_feed(&mut store, URL, &atom_doc(&strs(&five)), 10).unwrap();
    let before = get_entries_metas(&store, &ReadMode::All, id);
    assert_eq!(before.len(), 5);
    set_read_at(&mut store, before[0].id, Some(11)).unwrap();
    let before = get_entries_metas(&store, &ReadMode::All, id);
    assert_eq!(refresh_feed(&mut store, id, &atom_doc(&strs(&six)), 12), Ok(1));
    let after = get_entries_metas(&store, &ReadMode::All, id);
    assert_eq!(after.len(), 6);
    let added: Vec<_> = after.iter().filter(|m| !before.iter().any(|b| b.id == m.id)).collect();
    assert_eq!(added.len(), 1);
    assert_eq!(added[0].link.as_deref(), Some("http://example.org/f"));
    for b in &before {
        let a = after.iter().find(|a| a.id == b.id).unwrap();
        assert_eq!(a.link, b.link);
        assert_eq!(a.read_at, b.read_at);
    }
}

#[test]
fn one_failed_fetch_leaves_the_other_feeds_refreshed() {
    let mut store = FeedStore::new();
    let mut ids = vec![];
    for k in 0..3 {
        let l = links(2);
        let url = format!("http://example.org/{k}.xml");
        ids.push(subscribe_to_feed(&mut store, &url, &atom_doc(&strs(&l)), 1).unwrap());
    }
    let l3 = links(3);
    let doc = atom_doc(&strs(&l3));
    let fetched = vec![
        FetchOutcome { feed_id: ids[0], body: Ok(doc.clone()) },
        FetchOutcome { feed_id: ids[1], body: Err(Error::NetworkError("unreachable".to_string())) },
        FetchOutcome { feed_id: ids[2], body: Ok(doc.clone()) },
    ];
    let results = refresh_feeds(&mut store, &fetched, 2);
    assert_eq!(results[0].result, Ok(1));
    assert_eq!(results[2].result, Ok(1));
    let summary = summarize(&results);
    assert_eq!(summary.attempted, 3);
    assert_eq!(summary.succeeded, 2);
    assert_eq!(summary.failures.len(), 1);
    assert_eq!(summary.failures[0].feed_id, ids[1]);
    assert_eq!(summary.failures[0].error, Error::NetworkError("unreachable".to_string()));
    assert_eq!(store.entries.len(), 8);
}

#[test]
fn chunks_cover_the_items_in_order() {
    let items: Vec<i64> = (0..100).collect();
    let chunks = chunkify_for_threads(&items, 16);
    assert_eq!(chunks.len(), 17);
    assert!(chunks[..16].iter().all(|c| c.len() == 6));
    assert_eq!(chunks[16], vec![96, 97, 98, 99]);
    assert_eq!(chunks.concat(), items);
    let few: Vec<i64> = (0..10).collect();
    assert_eq!(chunkify_for_threads(&few, 16).len(), 10);
    let some: Vec<i64> = (0..25).collect();
    assert_eq!(chunkify_for_threads(&some, 16).len(), 25);
    assert_eq!(chunkify_for_threads(&[], 4).len(), 0);
}
