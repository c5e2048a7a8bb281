//! Turning fetched documents into stored feeds and entries: parsing,
//! link-based deduplication, refresh and subscription.
use crate::error::Error;
use crate::modes::ReadMode;
use crate::rss::{
    atom_entries, atom_feed_of, atom_header, date_of, parse_datetime, rss_channel_of,
    rss_header, rss_items, Feed, FeedAndEntries, FeedHeader, FeedId, FeedKind, RemoteEntry,
    RssItem,
};
use crate::store::{
    listed, listed_before, meta_of, sorted_for_listing, add_entries_to_feed, clone_string_opt, create_feed, created_feed, get_entries_links,
    has_feed, has_link, holds_text, listed_at, stored_entries, touched, update_feed_refreshed_at,
    FeedStore,
};
use vstd::prelude::*;

verus! {

/// The entry that an RSS item gives: its date is read with `date_of`, and
/// one that cannot be read is left out.
pub open spec fn entry_of_item(i: RssItem) -> RemoteEntry {
    RemoteEntry {
        title: i.title,
        author: i.author,
        pub_date: match i.pub_date {
            Some(d) => date_of(d@),
            None => None,
        },
        description: i.description,
        content: i.content,
        link: i.link,
    }
}

/// The format a document is read in: Atom first, then RSS.
pub open spec fn parsed_kind(s: Seq<char>) -> Option<FeedKind> {
    if atom_feed_of(s) is Some {
        Some(FeedKind::Atom)
    } else if rss_channel_of(s) is Some {
        Some(FeedKind::Rss)
    } else {
        None
    }
}

/// The title and site link of a document that reads as a feed.
pub open spec fn parsed_header(s: Seq<char>) -> FeedHeader {
    if atom_feed_of(s) is Some {
        atom_feed_of(s)->0.header
    } else {
        rss_channel_of(s)->0.header
    }
}

/// The entries of a document that reads as a feed, in document order.
pub open spec fn parsed_entries(s: Seq<char>) -> Seq<RemoteEntry> {
    if atom_feed_of(s) is Some {
        atom_feed_of(s)->0.entries@
    } else {
        rss_channel_of(s)->0.items@.map_values(|i: RssItem| entry_of_item(i))
    }
}

fn entry_from_item(i: &RssItem) -> (r: RemoteEntry)
    ensures
        r == entry_of_item(*i),
{
    let pub_date = match &i.pub_date {
        Some(d) => parse_datetime(d.as_str()),
        None => None,
    };
    RemoteEntry {
        title: clone_string_opt(&i.title),
        author: clone_string_opt(&i.author),
        pub_date,
        description: clone_string_opt(&i.description),
        content: clone_string_opt(&i.content),
        link: clone_string_opt(&i.link),
    }
}

fn entries_from_items(items: &Vec<RssItem>) -> (r: Vec<RemoteEntry>)
    ensures
        r@ == items@.map_values(|i: RssItem| entry_of_item(i)),
{
    let mut out: Vec<RemoteEntry> = Vec::new();
    let mut k: usize = 0;
    while k < items.len()
        invariant
            k <= items@.len(),
            out@ == items@.subrange(0, k as int).map_values(|i: RssItem| entry_of_item(i)),
        decreases items@.len() - k,
    {
        out.push(entry_from_item(&items[k]));
        assert(items@.subrange(0, k + 1).map_values(|i: RssItem| entry_of_item(i))
            =~= items@.subrange(0, k as int).map_values(|i: RssItem| entry_of_item(i)).push(
            entry_of_item(items@[k as int]),
        ));
        k = k + 1;
    }
    assert(items@.subrange(0, items@.len() as int) =~= items@);
    out
}

/// Reads a document as an Atom feed, else as an RSS channel. The feed's
/// `feed_link` is left unset and its id is 0.
pub fn parse_feed(s: &str) -> (r: Result<FeedAndEntries, Error>)
    ensures
        match r {
            Ok(d) => {
                &&& parsed_kind(s@) == Some(d.feed.feed_kind)
                &&& d.feed.title == parsed_header(s@).title
                &&& d.feed.link == parsed_header(s@).link
                &&& d.feed.feed_link is None
                &&& d.feed.id == 0
                &&& d.entries@ == parsed_entries(s@)
            },
            Err(e) => parsed_kind(s@) is None && e == Error::UnrecognizedFeedFormat,
        },
{
    let (kind, header, entries) = match atom_entries(s) {
        Some(entries) => match atom_header(s) {
            Some(h) => (FeedKind::Atom, h, entries),
            None => return Err(Error::UnrecognizedFeedFormat),
        },
        None => match rss_items(s) {
            Some(items) => match rss_header(s) {
                Some(h) => (FeedKind::Rss, h, entries_from_items(&items)),
                None => return Err(Error::UnrecognizedFeedFormat),
            },
            None => return Err(Error::UnrecognizedFeedFormat),
        },
    };
    let feed = Feed {
        id: 0,
        title: header.title,
        feed_link: None,
        link: header.link,
        feed_kind: kind,
        refreshed_at: None,
        inserted_at: 0,
        updated_at: 0,
    };
    Ok(FeedAndEntries { feed, entries })
}

/// Reads the document fetched from `url`: the feed's `feed_link` is `url`.
pub fn read_feed(body: &str, url: &str) -> (r: Result<FeedAndEntries, Error>)
    ensures
        match r {
            Ok(d) => {
                &&& parsed_kind(body@) == Some(d.feed.feed_kind)
                &&& d.feed.title == parsed_header(body@).title
                &&& d.feed.link == parsed_header(body@).link
                &&& d.feed.feed_link is Some && d.feed.feed_link->0@ == url@
                &&& d.entries@ == parsed_entries(body@)
            },
            Err(e) => parsed_kind(body@) is None && e == Error::UnrecognizedFeedFormat,
        },
{
    let mut d = parse_feed(body)?;
    d.set_feed_link(url);
    Ok(d)
}

/// The links stored for a feed, read or unread.
pub open spec fn feed_links(entries: Seq<crate::rss::Entry>, feed_id: FeedId) -> Set<Seq<char>> {
    Set::new(|l: Seq<char>| has_link(entries, feed_id, ReadMode::All, l))
}

/// Whether a remote entry is new against the links `known`: an entry without
/// a link has no identity and is always new.
pub open spec fn is_fresh(e: RemoteEntry, known: Set<Seq<char>>) -> bool {
    e.link is None || !known.contains(e.link->0@)
}

/// The remote entries that are new against `known`, in document order.
pub open spec fn fresh_entries(remote: Seq<RemoteEntry>, known: Set<Seq<char>>) -> Seq<RemoteEntry>
    decreases remote.len(),
{
    if remote.len() == 0 {
        Seq::empty()
    } else {
        let rest = fresh_entries(remote.drop_last(), known);
        if is_fresh(remote.last(), known) {
            rest.push(remote.last())
        } else {
            rest
        }
    }
}

/// The entries of `remote` whose link is not among `local_links`, and those
/// without a link.
pub fn new_entries(remote: &Vec<RemoteEntry>, local_links: &Vec<String>) -> (r: Vec<RemoteEntry>)
    ensures
        r@ == fresh_entries(remote@, Set::new(|l: Seq<char>| holds_text(local_links@, l))),
{
    let ghost known = Set::new(|l: Seq<char>| holds_text(local_links@, l));
    let mut out: Vec<RemoteEntry> = Vec::new();
    let mut i: usize = 0;
    while i < remote.len()
        invariant
            i <= remote@.len(),
            known == Set::new(|l: Seq<char>| holds_text(local_links@, l)),
            out@ == fresh_entries(remote@.subrange(0, i as int), known),
        decreases remote@.len() - i,
    {
        let e = &remote[i];
        let fresh = match &e.link {
            None => true,
            Some(link) => {
                let mut found = false;
                let mut j: usize = 0;
                while j < local_links.len()
                    invariant
                        j <= local_links@.len(),
                        found == exists|t: int| 0 <= t < j && local_links@[t]@ == link@,
                    decreases local_links@.len() - j,
                {
                    if local_links[j] == *link {
                        found = true;
                    }
                    j = j + 1;
                }
                assert(found == holds_text(local_links@, link@));
                !found
            },
        };
        assert(remote@.subrange(0, i + 1).drop_last() =~= remote@.subrange(0, i as int));
        if fresh {
            out.push(e.duplicate());
        }
        i = i + 1;
    }
    assert(remote@.subrange(0, remote@.len() as int) =~= remote@);
    out
}

/// Stores the entries of `remote` that are new for feed `feed_id`, by link
/// against every entry stored for it, read or unread, and records `now` as
/// its fetch time. Returns how many entries were stored.
pub fn refresh_feed_entries(
    store: &mut FeedStore,
    feed_id: FeedId,
    remote: &Vec<RemoteEntry>,
    now: i64,
) -> (r: Result<usize, Error>)
    requires
        old(store).wf(),
    ensures
        final(store).wf(),
        match r {
            Ok(n) => {
                let fresh = fresh_entries(remote@, feed_links(old(store).entries@, feed_id));
                &&& has_feed(old(store).feeds@, feed_id)
                &&& n == fresh.len()
                &&& final(store).entries@ == old(store).entries@ + stored_entries(
                    fresh,
                    old(store).next_entry_id as int,
                    feed_id,
                    now,
                )
                &&& final(store).feeds@ == touched(old(store).feeds@, feed_id, now)
                &&& final(store).next_entry_id == old(store).next_entry_id + n
                &&& final(store).next_feed_id == old(store).next_feed_id
            },
            Err(e) => {
                &&& *final(store) == *old(store)
                &&& !has_feed(old(store).feeds@, feed_id) ==> e == Error::NotFound
                &&& has_feed(old(store).feeds@, feed_id) ==> e == Error::StorageError
                    && old(store).next_entry_id + fresh_entries(
                    remote@,
                    feed_links(old(store).entries@, feed_id),
                ).len() > i64::MAX
            },
        },
{
    if crate::store::get_feed(store, feed_id).is_err() {
        return Err(Error::NotFound);
    }
    let links = get_entries_links(store, &ReadMode::All, feed_id);
    let fresh = new_entries(remote, &links);
    assert(Set::new(|l: Seq<char>| holds_text(links@, l)) =~= feed_links(store.entries@, feed_id));
    add_entries_to_feed(store, feed_id, &fresh, now)?;
    let touch = update_feed_refreshed_at(store, feed_id, now);
    assert(touch is Ok);
    Ok(fresh.len())
}

/// Refreshes feed `feed_id` from `body`, the document fetched from its URL.
pub fn refresh_feed(store: &mut FeedStore, feed_id: FeedId, body: &str, now: i64) -> (r: Result<
    usize,
    Error,
>)
    requires
        old(store).wf(),
    ensures
        final(store).wf(),
        match r {
            Ok(n) => {
                let fresh = fresh_entries(
                    parsed_entries(body@),
                    feed_links(old(store).entries@, feed_id),
                );
                &&& parsed_kind(body@) is Some
                &&& has_feed(old(store).feeds@, feed_id)
                &&& n == fresh.len()
                &&& final(store).entries@ == old(store).entries@ + stored_entries(
                    fresh,
                    old(store).next_entry_id as int,
                    feed_id,
                    now,
                )
                &&& final(store).feeds@ == touched(old(store).feeds@, feed_id, now)
                &&& final(store).next_entry_id == old(store).next_entry_id + n
                &&& final(store).next_feed_id == old(store).next_feed_id
            },
            Err(e) => {
                &&& *final(store) == *old(store)
                &&& !has_feed(old(store).feeds@, feed_id) ==> e == Error::NotFound
                &&& has_feed(old(store).feeds@, feed_id) && parsed_kind(body@) is None
                    ==> e == Error::UnrecognizedFeedFormat
                &&& has_feed(old(store).feeds@, feed_id) && parsed_kind(body@) is Some
                    ==> e == Error::StorageError && old(store).next_entry_id + fresh_entries(
                    parsed_entries(body@),
                    feed_links(old(store).entries@, feed_id),
                ).len() > i64::MAX
            },
        },
{
    if crate::store::get_feed(store, feed_id).is_err() {
        return Err(Error::NotFound);
    }
    let remote = parse_feed(body)?;
    refresh_feed_entries(store, feed_id, &remote.entries, now)
}

/// Stores a new feed with all of its entries, and returns its id.
pub fn subscribe_feed_and_entries(store: &mut FeedStore, doc: &FeedAndEntries, now: i64) -> (r:
    Result<FeedId, Error>)
    requires
        old(store).wf(),
    ensures
        final(store).wf(),
        match r {
            Ok(id) => {
                &&& crate::store::feed_ok(doc.feed)
                &&& id == old(store).next_feed_id
                &&& final(store).feeds@ == old(store).feeds@.push(created_feed(doc.feed, id, now))
                &&& final(store).entries@ == old(store).entries@ + stored_entries(
                    doc.entries@,
                    old(store).next_entry_id as int,
                    id,
                    now,
                )
            },
            Err(e) => {
                &&& e == Error::StorageError
                &&& !crate::store::feed_ok(doc.feed) || old(store).next_feed_id == i64::MAX
                    || old(store).next_entry_id + doc.entries@.len() > i64::MAX
            },
        },
{
    let id = create_feed(store, &doc.feed, now)?;
    assert(has_feed(store.feeds@, id)) by {
        assert(store.feeds@[store.feeds@.len() - 1].id == id);
    }
    add_entries_to_feed(store, id, &doc.entries, now)?;
    Ok(id)
}

/// Subscribes to the feed at `url`, from `body`, the document fetched there.
pub fn subscribe_to_feed(store: &mut FeedStore, url: &str, body: &str, now: i64) -> (r: Result<
    FeedId,
    Error,
>)
    requires
        old(store).wf(),
    ensures
        final(store).wf(),
        match r {
            Ok(id) => {
                &&& parsed_kind(body@) is Some
                &&& url@.len() > 0
                &&& id == old(store).next_feed_id
                &&& final(store).feeds@.len() == old(store).feeds@.len() + 1
                &&& final(store).feeds@.last().id == id
                &&& final(store).feeds@.last().feed_link is Some
                &&& final(store).feeds@.last().feed_link->0@ == url@
                &&& final(store).feeds@.last().feed_kind == parsed_kind(body@)->0
                &&& final(store).feeds@.last().title == parsed_header(body@).title
                &&& final(store).feeds@.last().link == parsed_header(body@).link
                &&& final(store).feeds@.drop_last() == old(store).feeds@
                &&& final(store).entries@ == old(store).entries@ + stored_entries(
                    parsed_entries(body@),
                    old(store).next_entry_id as int,
                    id,
                    now,
                )
            },
            Err(e) => {
                &&& parsed_kind(body@) is None ==> e == Error::UnrecognizedFeedFormat
                    && *final(store) == *old(store)
                &&& parsed_kind(body@) is Some ==> e == Error::StorageError && (url@.len() == 0
                    || old(store).next_feed_id == i64::MAX || old(store).next_entry_id
                    + parsed_entries(body@).len() > i64::MAX)
            },
        },
{
    let doc = read_feed(body, url)?;
    let r = subscribe_feed_and_entries(store, &doc, now);
    match r {
        Ok(id) => {
            assert(store.feeds@.drop_last() =~= old(store).feeds@);
            Ok(id)
        },
        Err(e) => Err(e),
    }
}

/// No more entries are new than the document has.
pub proof fn lemma_fresh_entries_len(remote: Seq<RemoteEntry>, known: Set<Seq<char>>)
    ensures
        fresh_entries(remote, known).len() <= remote.len(),
    decreases remote.len(),
{
    if remote.len() > 0 {
        lemma_fresh_entries_len(remote.drop_last(), known);
    }
}

proof fn lemma_fresh_entries_keep(remote: Seq<RemoteEntry>, known: Set<Seq<char>>, i: int)
    requires
        0 <= i < remote.len(),
        is_fresh(remote[i], known),
    ensures
        fresh_entries(remote, known).contains(remote[i]),
    decreases remote.len(),
{
    if i < remote.len() - 1 {
        lemma_fresh_entries_keep(remote.drop_last(), known, i);
        let rest = fresh_entries(remote.drop_last(), known);
        let j = choose|j: int| 0 <= j < rest.len() && rest[j] == remote[i];
        if is_fresh(remote.last(), known) {
            assert(rest.push(remote.last())[j] == remote[i]);
        }
    } else {
        assert(fresh_entries(remote, known).last() == remote[i]);
    }
}

proof fn lemma_fresh_entries_none(remote: Seq<RemoteEntry>, known: Set<Seq<char>>)
    requires
        forall|i: int| 0 <= i < remote.len() ==> !is_fresh(#[trigger] remote[i], known),
    ensures
        fresh_entries(remote, known).len() == 0,
    decreases remote.len(),
{
    if remote.len() > 0 {
        assert(!is_fresh(remote[remote.len() - 1], known));
        lemma_fresh_entries_none(remote.drop_last(), known);
    }
}

/// Refreshing a feed a second time from the same document stores nothing
/// more, when every entry of the document has a link.
pub proof fn lemma_refresh_idempotent(
    entries: Seq<crate::rss::Entry>,
    feed_id: FeedId,
    remote: Seq<RemoteEntry>,
    first: int,
    now: i64,
)
    requires
        forall|i: int| 0 <= i < remote.len() ==> (#[trigger] remote[i]).link is Some,
    ensures
        fresh_entries(
            remote,
            feed_links(
                entries + stored_entries(
                    fresh_entries(remote, feed_links(entries, feed_id)),
                    first,
                    feed_id,
                    now,
                ),
                feed_id,
            ),
        ).len() == 0,
{
    let known = feed_links(entries, feed_id);
    let fresh = fresh_entries(remote, known);
    let added = stored_entries(fresh, first, feed_id, now);
    let after = entries + added;
    assert forall|i: int| 0 <= i < remote.len() implies !is_fresh(
        #[trigger] remote[i],
        feed_links(after, feed_id),
    ) by {
        let l = remote[i].link->0@;
        if known.contains(l) {
            assert(has_link(entries, feed_id, ReadMode::All, l));
            let k = choose|k: int|
                listed_at(entries, feed_id, ReadMode::All, k) && (#[trigger] entries[k].link) is Some
                    && entries[k].link->0@ == l;
            assert(after[k] == entries[k]);
            assert(listed_at(after, feed_id, ReadMode::All, k));
            assert(has_link(after, feed_id, ReadMode::All, l));
        } else {
            lemma_fresh_entries_keep(remote, known, i);
            let j = choose|j: int| 0 <= j < fresh.len() && fresh[j] == remote[i];
            let k = entries.len() + j;
            assert(after[k] == added[j]);
            assert(added[j].link == remote[i].link);
            assert(after[k].link is Some && after[k].link->0@ == l);
            assert(listed_at(after, feed_id, ReadMode::All, k));
            assert(has_link(after, feed_id, ReadMode::All, l));
        }
    }
    lemma_fresh_entries_none(remote, feed_links(after, feed_id));
}

/// After subscribing to a feed from a document whose entries all have
/// links, refreshing it from that document with one more entry, whose link is
/// new, finds exactly that entry new.
pub proof fn lemma_refresh_after_subscribe_adds_only_new_link(
    entries: Seq<crate::rss::Entry>,
    feed_id: FeedId,
    first: Seq<RemoteEntry>,
    next_id: int,
    now: i64,
    added: RemoteEntry,
)
    requires
        forall|k: int| 0 <= k < entries.len() ==> (#[trigger] entries[k]).feed_id != feed_id,
        forall|i: int| 0 <= i < first.len() ==> (#[trigger] first[i]).link is Some,
        added.link is Some,
        forall|i: int| 0 <= i < first.len() ==> (#[trigger] first[i]).link->0@ != added.link->0@,
    ensures
        fresh_entries(
            first.push(added),
            feed_links(entries + stored_entries(first, next_id, feed_id, now), feed_id),
        ) == seq![added],
{
    let stored = stored_entries(first, next_id, feed_id, now);
    let after = entries + stored;
    let known = feed_links(after, feed_id);
    assert forall|i: int| 0 <= i < first.len() implies !is_fresh(#[trigger] first[i], known) by {
        let k = entries.len() + i;
        assert(after[k] == stored[i]);
        assert(after[k].link == first[i].link);
        assert(listed_at(after, feed_id, ReadMode::All, k));
        assert(has_link(after, feed_id, ReadMode::All, first[i].link->0@));
    }
    lemma_fresh_entries_none(first, known);
    assert(is_fresh(added, known)) by {
        if has_link(after, feed_id, ReadMode::All, added.link->0@) {
            let k = choose|k: int|
                listed_at(after, feed_id, ReadMode::All, k) && (#[trigger] after[k].link) is Some
                    && after[k].link->0@ == added.link->0@;
            if k < entries.len() {
                assert(after[k] == entries[k]);
            } else {
                let i = k - entries.len();
                assert(after[k] == stored[i]);
                assert(stored[i].link == first[i].link);
            }
        }
    }
    assert(first.push(added).drop_last() =~= first);
    assert(fresh_entries(first.push(added), known) =~= seq![added]);
}

/// The list rows of the entries that storing `rs` for feed `feed_id`, with
/// ids from `first` on, gives.
pub open spec fn stored_metas(rs: Seq<RemoteEntry>, first: int, feed_id: FeedId, now: i64) -> Seq<
    crate::rss::EntryMeta,
> {
    stored_entries(rs, first, feed_id, now).map_values(|e: crate::rss::Entry| meta_of(e))
}

/// A feed just subscribed to from a document lists, when all entries are
/// shown, one unread row for each entry of the document, with that entry's
/// link: as many rows as the document has entries.
pub proof fn lemma_subscribed_feed_lists_every_entry(
    entries: Seq<crate::rss::Entry>,
    feed_id: FeedId,
    rs: Seq<RemoteEntry>,
    first: int,
    now: i64,
    listing: Seq<crate::rss::EntryMeta>,
)
    requires
        forall|k: int| 0 <= k < entries.len() ==> (#[trigger] entries[k]).feed_id != feed_id,
        0 < first,
        first + rs.len() <= i64::MAX,
        sorted_for_listing(listing),
        forall|m: crate::rss::EntryMeta|
            listing.contains(m) <==> listed(
                entries + stored_entries(rs, first, feed_id, now),
                feed_id,
                ReadMode::All,
                m,
            ),
    ensures
        listing.len() == rs.len(),
        listing.to_set() == stored_metas(rs, first, feed_id, now).to_set(),
        forall|i: int| 0 <= i < listing.len() ==> (#[trigger] listing[i]).read_at is None,
        forall|i: int|
            0 <= i < rs.len() ==> listing.contains(
                #[trigger] stored_metas(rs, first, feed_id, now)[i],
            ),
{
    let stored = stored_entries(rs, first, feed_id, now);
    let after = entries + stored;
    let metas = stored_metas(rs, first, feed_id, now);
    assert forall|m: crate::rss::EntryMeta| listing.contains(m) <==> metas.contains(m) by {
        if listing.contains(m) {
            let k = choose|k: int|
                listed_at(after, feed_id, ReadMode::All, k) && meta_of(after[k]) == m;
            if k < entries.len() {
                assert(after[k] == entries[k]);
            } else {
                assert(after[k] == stored[k - entries.len()]);
                assert(metas[k - entries.len()] == m);
            }
        }
        if metas.contains(m) {
            let i = choose|i: int| 0 <= i < metas.len() && metas[i] == m;
            let k = entries.len() + i;
            assert(after[k] == stored[i]);
            assert(listed_at(after, feed_id, ReadMode::All, k));
        }
    }
    assert(listing.to_set() =~= metas.to_set());
    assert forall|i: int, j: int|
        0 <= i < listing.len() && 0 <= j < listing.len() && i != j implies listing[i]
        != listing[j] by {
        if i < j {
            assert(listed_before(listing[i], listing[j]));
        } else {
            assert(listed_before(listing[j], listing[i]));
        }
    }
    assert forall|i: int, j: int|
        0 <= i < metas.len() && 0 <= j < metas.len() && i != j implies metas[i] != metas[j] by {
        assert(metas[i].id == (first + i) as i64);
        assert(metas[j].id == (first + j) as i64);
    }
    listing.unique_seq_to_set();
    metas.unique_seq_to_set();
    assert forall|i: int| 0 <= i < listing.len() implies (#[trigger] listing[i]).read_at is None by {
        assert(listing.contains(listing[i]));
        let j = choose|j: int| 0 <= j < metas.len() && metas[j] == listing[i];
    }
    assert forall|i: int| 0 <= i < rs.len() implies listing.contains(#[trigger] metas[i]) by {
        assert(metas.contains(metas[i]));
    }
}

} // verus!
