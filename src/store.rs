//! The feed store: feeds and their entries, with store-assigned ids.
//!
//! Ids grow with each insertion, so both tables are ordered by id. Listing
//! entries filters them by read state and orders them newest first.
use crate::error::Error;
use crate::modes::ReadMode;
use crate::rss::{Entry, EntryContent, EntryId, EntryMeta, Feed, FeedId, RemoteEntry};
use vstd::prelude::*;

verus! {

pub struct FeedStore {
    pub feeds: Vec<Feed>,
    pub entries: Vec<Entry>,
    pub next_feed_id: i64,
    pub next_entry_id: i64,
}

/// Whether a stored feed may be polled: it has a non-empty source URL.
pub open spec fn feed_ok(f: Feed) -> bool {
    f.feed_link is Some && f.feed_link->0@.len() > 0
}

pub open spec fn has_feed(feeds: Seq<Feed>, id: FeedId) -> bool {
    exists|i: int| 0 <= i < feeds.len() && feeds[i].id == id
}

pub open spec fn has_entry(entries: Seq<Entry>, id: EntryId) -> bool {
    exists|i: int| 0 <= i < entries.len() && entries[i].id == id
}

/// Whether persisted rows make a store: ids positive, below the largest
/// integer and growing, feeds with a source URL, entries of stored feeds.
pub open spec fn loadable(feeds: Seq<Feed>, entries: Seq<Entry>) -> bool {
    &&& forall|k: int| 0 <= k < feeds.len() ==> 0 < #[trigger] feeds[k].id < i64::MAX && feed_ok(feeds[k])
    &&& forall|a: int, b: int| 0 <= a < b < feeds.len() ==> feeds[a].id < feeds[b].id
    &&& forall|k: int|
        0 <= k < entries.len() ==> 0 < #[trigger] entries[k].id < i64::MAX && has_feed(
            feeds,
            entries[k].feed_id,
        )
    &&& forall|a: int, b: int| 0 <= a < b < entries.len() ==> entries[a].id < entries[b].id
}

impl FeedStore {
    pub open spec fn wf(&self) -> bool {
        &&& 0 < self.next_feed_id
        &&& 0 < self.next_entry_id
        &&& forall|i: int|
            0 <= i < self.feeds@.len() ==> 0 < #[trigger] self.feeds@[i].id < self.next_feed_id
                && feed_ok(self.feeds@[i])
        &&& forall|i: int, j: int|
            0 <= i < j < self.feeds@.len() ==> self.feeds@[i].id < self.feeds@[j].id
        &&& forall|i: int|
            0 <= i < self.entries@.len() ==> 0 < #[trigger] self.entries@[i].id
                < self.next_entry_id && has_feed(self.feeds@, self.entries@[i].feed_id)
        &&& forall|i: int, j: int|
            0 <= i < j < self.entries@.len() ==> self.entries@[i].id < self.entries@[j].id
    }

    /// A store holding `feeds` and `entries` as persisted, each ordered by
    /// id; new ids follow the largest. Rows that break the store's rules are
    /// refused.
    pub fn load(feeds: Vec<Feed>, entries: Vec<Entry>) -> (r: Result<FeedStore, Error>)
        ensures
            match r {
                Ok(st) => st.wf() && st.feeds == feeds && st.entries == entries && loadable(
                    feeds@,
                    entries@,
                ),
                Err(e) => e == Error::StorageError && !loadable(feeds@, entries@),
            },
    {
        let mut next_feed_id: i64 = 1;
        let mut i: usize = 0;
        while i < feeds.len()
            invariant
                i <= feeds@.len(),
                0 < next_feed_id,
                i > 0 ==> next_feed_id == feeds@[i - 1].id + 1,
                i == 0 ==> next_feed_id == 1,
                forall|k: int|
                    0 <= k < i ==> 0 < #[trigger] feeds@[k].id < next_feed_id && feeds@[k].id
                        < i64::MAX && feed_ok(feeds@[k]),
                forall|a: int, b: int| 0 <= a < b < i ==> feeds@[a].id < feeds@[b].id,
            decreases feeds@.len() - i,
        {
            let f = &feeds[i];
            let ok = match &f.feed_link {
                Some(url) => url.as_str().unicode_len() > 0,
                None => false,
            };
            if !ok || f.id < next_feed_id || f.id == i64::MAX {
                proof {
                    assert(feeds@[i as int].id == f.id);
                    if !ok {
                        assert(!feed_ok(feeds@[i as int]));
                    } else if f.id < next_feed_id && i > 0 {
                        assert(feeds@[i - 1].id >= feeds@[i as int].id);
                    }
                    if loadable(feeds@, entries@) {
                        assert(0 < feeds@[i as int].id < i64::MAX && feed_ok(feeds@[i as int]));
                        if i > 0 {
                            assert(feeds@[i - 1].id < feeds@[i as int].id);
                        }
                    }
                }
                return Err(Error::StorageError);
            }
            next_feed_id = f.id + 1;
            i = i + 1;
        }
        let mut next_entry_id: i64 = 1;
        let mut j: usize = 0;
        while j < entries.len()
            invariant
                j <= entries@.len(),
                0 < next_entry_id,
                forall|k: int|
                    0 <= k < j ==> 0 < #[trigger] entries@[k].id < next_entry_id && entries@[k].id
                        < i64::MAX && has_feed(feeds@, entries@[k].feed_id),
                forall|a: int, b: int| 0 <= a < b < j ==> entries@[a].id < entries@[b].id,
                j > 0 ==> next_entry_id == entries@[j - 1].id + 1,
                j == 0 ==> next_entry_id == 1,
                forall|k: int|
                    0 <= k < feeds@.len() ==> 0 < #[trigger] feeds@[k].id < i64::MAX && feed_ok(
                        feeds@[k],
                    ),
                forall|a: int, b: int| 0 <= a < b < feeds@.len() ==> feeds@[a].id < feeds@[b].id,
            decreases entries@.len() - j,
        {
            let e = &entries[j];
            let mut found = false;
            let mut k: usize = 0;
            while k < feeds.len()
                invariant
                    k <= feeds@.len(),
                    found ==> has_feed(feeds@, e.feed_id),
                    !found ==> forall|t: int| 0 <= t < k ==> feeds@[t].id != e.feed_id,
                decreases feeds@.len() - k,
            {
                if feeds[k].id == e.feed_id {
                    found = true;
                }
                k = k + 1;
            }
            if !found || e.id < next_entry_id || e.id == i64::MAX {
                proof {
                    assert(entries@[j as int].id == e.id);
                    if !found {
                        assert(!has_feed(feeds@, entries@[j as int].feed_id));
                    } else if e.id < next_entry_id && j > 0 {
                        assert(entries@[j - 1].id >= entries@[j as int].id);
                    }
                    if loadable(feeds@, entries@) {
                        assert(0 < entries@[j as int].id < i64::MAX && has_feed(
                            feeds@,
                            entries@[j as int].feed_id,
                        ));
                        if j > 0 {
                            assert(entries@[j - 1].id < entries@[j as int].id);
                        }
                    }
                }
                return Err(Error::StorageError);
            }
            next_entry_id = e.id + 1;
            j = j + 1;
        }
        Ok(FeedStore { feeds, entries, next_feed_id, next_entry_id })
    }

    /// An empty store.
    pub fn new() -> (r: FeedStore)
        ensures
            r.wf(),
            r.feeds@.len() == 0,
            r.entries@.len() == 0,
    {
        FeedStore { feeds: Vec::new(), entries: Vec::new(), next_feed_id: 1, next_entry_id: 1 }
    }
}

pub fn clone_string_opt(o: &Option<String>) -> (r: Option<String>)
    ensures
        r == *o,
{
    match o {
        Some(s) => Some(s.clone()),
        None => None,
    }
}

impl Feed {
    pub fn duplicate(&self) -> (r: Feed)
        ensures
            r == *self,
    {
        Feed {
            id: self.id,
            title: clone_string_opt(&self.title),
            feed_link: clone_string_opt(&self.feed_link),
            link: clone_string_opt(&self.link),
            feed_kind: self.feed_kind,
            refreshed_at: self.refreshed_at,
            inserted_at: self.inserted_at,
            updated_at: self.updated_at,
        }
    }
}

impl EntryMeta {
    pub fn duplicate(&self) -> (r: EntryMeta)
        ensures
            r == *self,
    {
        EntryMeta {
            id: self.id,
            feed_id: self.feed_id,
            title: clone_string_opt(&self.title),
            author: clone_string_opt(&self.author),
            pub_date: self.pub_date,
            link: clone_string_opt(&self.link),
            read_at: self.read_at,
            inserted_at: self.inserted_at,
            updated_at: self.updated_at,
        }
    }
}

impl RemoteEntry {
    pub fn duplicate(&self) -> (r: RemoteEntry)
        ensures
            r == *self,
    {
        RemoteEntry {
            title: clone_string_opt(&self.title),
            author: clone_string_opt(&self.author),
            pub_date: self.pub_date,
            description: clone_string_opt(&self.description),
            content: clone_string_opt(&self.content),
            link: clone_string_opt(&self.link),
        }
    }
}

/// An entry without its body.
pub open spec fn meta_of(e: Entry) -> EntryMeta {
    EntryMeta {
        id: e.id,
        feed_id: e.feed_id,
        title: e.title,
        author: e.author,
        pub_date: e.pub_date,
        link: e.link,
        read_at: e.read_at,
        inserted_at: e.inserted_at,
        updated_at: e.updated_at,
    }
}

fn meta_from_entry(e: &Entry) -> (r: EntryMeta)
    ensures
        r == meta_of(*e),
{
    EntryMeta {
        id: e.id,
        feed_id: e.feed_id,
        title: clone_string_opt(&e.title),
        author: clone_string_opt(&e.author),
        pub_date: e.pub_date,
        link: clone_string_opt(&e.link),
        read_at: e.read_at,
        inserted_at: e.inserted_at,
        updated_at: e.updated_at,
    }
}

/// Whether a read mode shows an entry with this read time.
pub open spec fn mode_admits(mode: ReadMode, read_at: Option<i64>) -> bool {
    match mode {
        ReadMode::ShowUnread => read_at is None,
        ReadMode::ShowRead => read_at is Some,
        ReadMode::All => true,
    }
}

/// Whether `entries[k]` is listed for `feed_id` under `mode`.
pub open spec fn listed_at(entries: Seq<Entry>, feed_id: FeedId, mode: ReadMode, k: int) -> bool {
    0 <= k < entries.len() && entries[k].feed_id == feed_id && mode_admits(mode, entries[k].read_at)
}

/// Whether `m` is the row of an entry listed for `feed_id` under `mode`.
pub open spec fn listed(entries: Seq<Entry>, feed_id: FeedId, mode: ReadMode, m: EntryMeta) -> bool {
    exists|k: int| listed_at(entries, feed_id, mode, k) && meta_of(entries[k]) == m
}

/// Whether the entry with id `id` is listed for `feed_id` under `mode`.
pub open spec fn listed_id(entries: Seq<Entry>, feed_id: FeedId, mode: ReadMode, id: EntryId) -> bool {
    exists|k: int| listed_at(entries, feed_id, mode, k) && entries[k].id == id
}

/// The order of entry lists: publication time descending, undated entries
/// last; then insertion time descending; then id descending.
pub open spec fn listed_before(a: EntryMeta, b: EntryMeta) -> bool {
    if a.pub_date != b.pub_date {
        match (a.pub_date, b.pub_date) {
            (Some(x), Some(y)) => x > y,
            (Some(_), None) => true,
            _ => false,
        }
    } else if a.inserted_at != b.inserted_at {
        a.inserted_at > b.inserted_at
    } else {
        a.id > b.id
    }
}

proof fn lemma_listed_before_transitive(a: EntryMeta, b: EntryMeta, c: EntryMeta)
    requires
        listed_before(a, b),
        listed_before(b, c),
    ensures
        listed_before(a, c),
{
}

pub open spec fn sorted_for_listing(s: Seq<EntryMeta>) -> bool {
    forall|i: int, j: int| 0 <= i < j < s.len() ==> listed_before(s[i], s[j])
}

fn is_listed_before(a: &EntryMeta, b: &EntryMeta) -> (r: bool)
    ensures
        r == listed_before(*a, *b),
{
    if a.pub_date != b.pub_date {
        match (a.pub_date, b.pub_date) {
            (Some(x), Some(y)) => x > y,
            (Some(_), None) => true,
            _ => false,
        }
    } else if a.inserted_at != b.inserted_at {
        a.inserted_at > b.inserted_at
    } else {
        a.id > b.id
    }
}

/// Inserts `m` into a list kept in listing order.
fn insert_in_listing_order(v: &mut Vec<EntryMeta>, m: EntryMeta)
    requires
        sorted_for_listing(old(v)@),
        forall|i: int| 0 <= i < old(v)@.len() ==> old(v)@[i].id != m.id,
    ensures
        sorted_for_listing(final(v)@),
        final(v)@.len() == old(v)@.len() + 1,
        forall|x: EntryMeta| final(v)@.contains(x) <==> (old(v)@.contains(x) || x == m),
{
    let mut pos: usize = 0;
    while pos < v.len() && !is_listed_before(&m, &v[pos])
        invariant
            pos <= v@.len(),
            forall|i: int| 0 <= i < pos ==> listed_before(v@[i], m),
            forall|i: int| 0 <= i < v@.len() ==> v@[i].id != m.id,
        decreases v@.len() - pos,
    {
        pos = pos + 1;
    }
    let ghost old_v = v@;
    v.insert(pos, m);
    assert(v@ == old_v.insert(pos as int, m));
    assert forall|i: int, j: int| 0 <= i < j < v@.len() implies listed_before(v@[i], v@[j]) by {
        if j < pos {
            assert(v@[i] == old_v[i]);
            assert(v@[j] == old_v[j]);
        } else if j == pos {
            assert(v@[i] == old_v[i]);
        } else if i < pos {
            assert(v@[i] == old_v[i]);
            assert(listed_before(old_v[i], m));
            assert(listed_before(m, old_v[pos as int]));
            assert(v@[j] == old_v[j - 1]);
            if j - 1 > pos {
                lemma_listed_before_transitive(m, old_v[pos as int], old_v[j - 1]);
            }
            lemma_listed_before_transitive(old_v[i], m, old_v[j - 1]);
        } else if i == pos {
            assert(listed_before(m, old_v[pos as int]));
            assert(v@[j] == old_v[j - 1]);
            if j - 1 > pos {
                lemma_listed_before_transitive(m, old_v[pos as int], old_v[j - 1]);
            }
        } else {
            assert(v@[i] == old_v[i - 1]);
            assert(v@[j] == old_v[j - 1]);
        }
    }
    assert forall|x: EntryMeta| v@.contains(x) <==> (old_v.contains(x) || x == m) by {
        if v@.contains(x) {
            let k = choose|k: int| 0 <= k < v@.len() && v@[k] == x;
            if k < pos {
                assert(old_v[k] == x);
            } else if k > pos {
                assert(old_v[k - 1] == x);
            }
        }
        if old_v.contains(x) {
            let k = choose|k: int| 0 <= k < old_v.len() && old_v[k] == x;
            if k < pos {
                assert(v@[k] == x);
            } else {
                assert(v@[k + 1] == x);
            }
        }
        if x == m {
            assert(v@[pos as int] == m);
        }
    }
}

/// The entries of `feed_id` that `read_mode` shows, in listing order.
pub fn get_entries_metas(store: &FeedStore, read_mode: &ReadMode, feed_id: FeedId) -> (r: Vec<
    EntryMeta,
>)
    requires
        store.wf(),
    ensures
        sorted_for_listing(r@),
        forall|m: EntryMeta| r@.contains(m) <==> listed(store.entries@, feed_id, *read_mode, m),
        forall|id: EntryId|
            (exists|j: int| 0 <= j < r@.len() && r@[j].id == id) <==> listed_id(
                store.entries@,
                feed_id,
                *read_mode,
                id,
            ),
{
    let ghost es = store.entries@;
    let mut out: Vec<EntryMeta> = Vec::new();
    let mut i: usize = 0;
    while i < store.entries.len()
        invariant
            store.wf(),
            es == store.entries@,
            i <= es.len(),
            sorted_for_listing(out@),
            forall|m: EntryMeta|
                out@.contains(m) <==> exists|k: int|
                    0 <= k < i && listed_at(es, feed_id, *read_mode, k) && meta_of(es[k]) == m,
        decreases es.len() - i,
    {
        let e = &store.entries[i];
        let admitted = match read_mode {
            ReadMode::ShowUnread => e.read_at.is_none(),
            ReadMode::ShowRead => e.read_at.is_some(),
            ReadMode::All => true,
        };
        if e.feed_id == feed_id && admitted {
            let m = meta_from_entry(e);
            assert forall|j: int| 0 <= j < out@.len() implies out@[j].id != m.id by {
                assert(out@.contains(out@[j]));
            }
            let ghost before = out@;
            insert_in_listing_order(&mut out, m);
            assert forall|x: EntryMeta| out@.contains(x) <==> exists|k: int|
                0 <= k < i + 1 && listed_at(es, feed_id, *read_mode, k) && meta_of(es[k]) == x by {
                if x == m {
                    assert(listed_at(es, feed_id, *read_mode, i as int));
                }
            }
        } else {
            assert forall|x: EntryMeta| out@.contains(x) <==> exists|k: int|
                0 <= k < i + 1 && listed_at(es, feed_id, *read_mode, k) && meta_of(es[k]) == x by {
                if exists|k: int|
                    0 <= k < i + 1 && listed_at(es, feed_id, *read_mode, k) && meta_of(es[k]) == x {
                    let k = choose|k: int|
                        0 <= k < i + 1 && listed_at(es, feed_id, *read_mode, k) && meta_of(es[k])
                            == x;
                    assert(k != i);
                }
            }
        }
        i = i + 1;
    }
    assert forall|id: EntryId|
        (exists|j: int| 0 <= j < out@.len() && out@[j].id == id) <==> listed_id(
            es,
            feed_id,
            *read_mode,
            id,
        ) by {
        if exists|j: int| 0 <= j < out@.len() && out@[j].id == id {
            let j = choose|j: int| 0 <= j < out@.len() && out@[j].id == id;
            assert(out@.contains(out@[j]));
        }
        if listed_id(es, feed_id, *read_mode, id) {
            let k = choose|k: int| listed_at(es, feed_id, *read_mode, k) && es[k].id == id;
            assert(listed(es, feed_id, *read_mode, meta_of(es[k])));
            assert(out@.contains(meta_of(es[k])));
        }
    }
    out
}

/// Whether an entry listed for `feed_id` under `mode` has the link `l`.
pub open spec fn has_link(entries: Seq<Entry>, feed_id: FeedId, mode: ReadMode, l: Seq<char>) -> bool {
    exists|k: int|
        listed_at(entries, feed_id, mode, k) && (#[trigger] entries[k].link) is Some
            && entries[k].link->0@ == l
}

/// Whether one of the strings of `v` has the characters `l`.
pub open spec fn holds_text(v: Seq<String>, l: Seq<char>) -> bool {
    exists|j: int| 0 <= j < v.len() && v[j]@ == l
}

spec fn has_link_before(entries: Seq<Entry>, feed_id: FeedId, mode: ReadMode, n: int, l: Seq<char>) -> bool {
    exists|k: int|
        0 <= k < n && listed_at(entries, feed_id, mode, k) && (#[trigger] entries[k].link) is Some
            && entries[k].link->0@ == l
}

/// The links of the entries of `feed_id` that `read_mode` shows; entries
/// without a link give none.
pub fn get_entries_links(store: &FeedStore, read_mode: &ReadMode, feed_id: FeedId) -> (r: Vec<
    String,
>)
    ensures
        forall|l: Seq<char>|
            holds_text(r@, l) <==> #[trigger] has_link(store.entries@, feed_id, *read_mode, l),
{
    let ghost es = store.entries@;
    let mut out: Vec<String> = Vec::new();
    let mut i: usize = 0;
    while i < store.entries.len()
        invariant
            es == store.entries@,
            i <= es.len(),
            forall|l: Seq<char>|
                holds_text(out@, l) <==> #[trigger] has_link_before(
                    es,
                    feed_id,
                    *read_mode,
                    i as int,
                    l,
                ),
        decreases es.len() - i,
    {
        let e = &store.entries[i];
        let admitted = match read_mode {
            ReadMode::ShowUnread => e.read_at.is_none(),
            ReadMode::ShowRead => e.read_at.is_some(),
            ReadMode::All => true,
        };
        let ghost before = out@;
        if e.feed_id == feed_id && admitted {
            match &e.link {
                Some(link) => {
                    out.push(link.clone());
                },
                None => {},
            }
        }
        assert forall|l: Seq<char>|
            holds_text(out@, l) <==> #[trigger] has_link_before(
                es,
                feed_id,
                *read_mode,
                i + 1,
                l,
            ) by {
            if holds_text(out@, l) {
                let j = choose|j: int| 0 <= j < out@.len() && out@[j]@ == l;
                if j < before.len() {
                    assert(before[j]@ == l);
                    assert(holds_text(before, l));
                    assert(has_link_before(es, feed_id, *read_mode, i as int, l));
                    let k = choose|k: int|
                        0 <= k < i && listed_at(es, feed_id, *read_mode, k) && (
                        #[trigger] es[k].link) is Some && es[k].link->0@ == l;
                    assert(has_link_before(es, feed_id, *read_mode, i + 1, l));
                } else {
                    assert(listed_at(es, feed_id, *read_mode, i as int));
                    assert(es[i as int].link is Some && es[i as int].link->0@ == l);
                    assert(has_link_before(es, feed_id, *read_mode, i + 1, l));
                }
            }
            if has_link_before(es, feed_id, *read_mode, i + 1, l) {
                let k = choose|k: int|
                    0 <= k < i + 1 && listed_at(es, feed_id, *read_mode, k) && (
                    #[trigger] es[k].link) is Some && es[k].link->0@ == l;
                if k < i {
                    assert(has_link_before(es, feed_id, *read_mode, i as int, l));
                    assert(holds_text(before, l));
                    let j = choose|j: int| 0 <= j < before.len() && before[j]@ == l;
                    assert(out@[j] == before[j]);
                    assert(holds_text(out@, l));
                } else {
                    assert(out@[before.len() as int]@ == l);
                    assert(holds_text(out@, l));
                }
            }
        }
        i = i + 1;
    }
    assert forall|l: Seq<char>|
        holds_text(out@, l) <==> #[trigger] has_link(es, feed_id, *read_mode, l) by {
        assert(has_link(es, feed_id, *read_mode, l) == has_link_before(
            es,
            feed_id,
            *read_mode,
            es.len() as int,
            l,
        ));
    }
    out
}

fn find_feed(store: &FeedStore, feed_id: FeedId) -> (r: Option<usize>)
    ensures
        match r {
            Some(i) => i < store.feeds@.len() && store.feeds@[i as int].id == feed_id,
            None => !has_feed(store.feeds@, feed_id),
        },
{
    let mut i: usize = 0;
    while i < store.feeds.len()
        invariant
            i <= store.feeds@.len(),
            forall|k: int| 0 <= k < i ==> store.feeds@[k].id != feed_id,
        decreases store.feeds@.len() - i,
    {
        if store.feeds[i].id == feed_id {
            return Some(i);
        }
        i = i + 1;
    }
    None
}

fn find_entry(store: &FeedStore, entry_id: EntryId) -> (r: Option<usize>)
    ensures
        match r {
            Some(i) => i < store.entries@.len() && store.entries@[i as int].id == entry_id,
            None => !has_entry(store.entries@, entry_id),
        },
{
    let mut i: usize = 0;
    while i < store.entries.len()
        invariant
            i <= store.entries@.len(),
            forall|k: int| 0 <= k < i ==> store.entries@[k].id != entry_id,
        decreases store.entries@.len() - i,
    {
        if store.entries[i].id == entry_id {
            return Some(i);
        }
        i = i + 1;
    }
    None
}

/// The feed with id `feed_id`.
pub fn get_feed(store: &FeedStore, feed_id: FeedId) -> (r: Result<Feed, Error>)
    ensures
        match r {
            Ok(f) => f.id == feed_id && store.feeds@.contains(f),
            Err(e) => !has_feed(store.feeds@, feed_id) && e == Error::NotFound,
        },
{
    match find_feed(store, feed_id) {
        Some(i) => {
            let f = store.feeds[i].duplicate();
            assert(store.feeds@[i as int] == f);
            Ok(f)
        },
        None => Err(Error::NotFound),
    }
}

/// The URL that the feed with id `feed_id` is polled at.
pub fn get_feed_url(store: &FeedStore, feed_id: FeedId) -> (r: Result<String, Error>)
    requires
        store.wf(),
    ensures
        match r {
            Ok(url) => exists|i: int|
                0 <= i < store.feeds@.len() && store.feeds@[i].id == feed_id
                    && store.feeds@[i].feed_link == Some(url),
            Err(e) => !has_feed(store.feeds@, feed_id) && e == Error::NotFound,
        },
{
    match find_feed(store, feed_id) {
        Some(i) => {
            assert(feed_ok(store.feeds@[i as int]));
            match &store.feeds[i].feed_link {
                Some(url) => Ok(url.clone()),
                None => Err(Error::NotFound),
            }
        },
        None => Err(Error::NotFound),
    }
}

/// The list row of the entry with id `entry_id`.
pub fn get_entry_meta(store: &FeedStore, entry_id: EntryId) -> (r: Result<EntryMeta, Error>)
    ensures
        match r {
            Ok(m) => m.id == entry_id && exists|i: int|
                0 <= i < store.entries@.len() && meta_of(store.entries@[i]) == m,
            Err(e) => !has_entry(store.entries@, entry_id) && e == Error::NotFound,
        },
{
    match find_entry(store, entry_id) {
        Some(i) => Ok(meta_from_entry(&store.entries[i])),
        None => Err(Error::NotFound),
    }
}

/// The body of the entry with id `entry_id`.
pub fn get_entry_content(store: &FeedStore, entry_id: EntryId) -> (r: Result<EntryContent, Error>)
    ensures
        match r {
            Ok(c) => exists|i: int|
                0 <= i < store.entries@.len() && store.entries@[i].id == entry_id
                    && store.entries@[i].content == c.content && store.entries@[i].description
                    == c.description,
            Err(e) => !has_entry(store.entries@, entry_id) && e == Error::NotFound,
        },
{
    match find_entry(store, entry_id) {
        Some(i) => Ok(
            EntryContent {
                content: clone_string_opt(&store.entries[i].content),
                description: clone_string_opt(&store.entries[i].description),
            },
        ),
        None => Err(Error::NotFound),
    }
}

/// The row that creating `f` under id `id` at time `now` stores.
pub open spec fn created_feed(f: Feed, id: FeedId, now: i64) -> Feed {
    Feed {
        id,
        title: f.title,
        feed_link: f.feed_link,
        link: f.link,
        feed_kind: f.feed_kind,
        refreshed_at: None,
        inserted_at: now,
        updated_at: now,
    }
}

/// Stores `feed` under a fresh id. The feed's `feed_link` must be a non-empty
/// URL.
pub fn create_feed(store: &mut FeedStore, feed: &Feed, now: i64) -> (r: Result<FeedId, Error>)
    requires
        old(store).wf(),
    ensures
        final(store).wf(),
        match r {
            Ok(id) => {
                &&& feed_ok(*feed)
                &&& old(store).next_feed_id < i64::MAX
                &&& id == old(store).next_feed_id
                &&& final(store).feeds@ == old(store).feeds@.push(created_feed(*feed, id, now))
                &&& final(store).next_feed_id == id + 1
                &&& final(store).entries@ == old(store).entries@
                &&& final(store).next_entry_id == old(store).next_entry_id
            },
            Err(e) => {
                &&& e == Error::StorageError
                &&& !feed_ok(*feed) || old(store).next_feed_id == i64::MAX
                &&& *final(store) == *old(store)
            },
        },
{
    let ok = match &feed.feed_link {
        Some(url) => url.as_str().unicode_len() > 0,
        None => false,
    };
    if !ok || store.next_feed_id == i64::MAX {
        return Err(Error::StorageError);
    }
    let id = store.next_feed_id;
    let row = Feed {
        id,
        title: clone_string_opt(&feed.title),
        feed_link: clone_string_opt(&feed.feed_link),
        link: clone_string_opt(&feed.link),
        feed_kind: feed.feed_kind,
        refreshed_at: None,
        inserted_at: now,
        updated_at: now,
    };
    let ghost old_feeds = store.feeds@;
    store.feeds.push(row);
    store.next_feed_id = id + 1;
    assert forall|i: int| 0 <= i < store.entries@.len() implies has_feed(
        store.feeds@,
        #[trigger] store.entries@[i].feed_id,
    ) by {
        assert(0 < store.entries@[i].id);
        assert(has_feed(old_feeds, store.entries@[i].feed_id));
        let k = choose|k: int| 0 <= k < old_feeds.len() && old_feeds[k].id == store.entries@[i].feed_id;
        assert(store.feeds@[k] == old_feeds[k]);
    }
    Ok(id)
}

/// The row that storing `e` under id `id` for feed `feed_id` at time `now`
/// gives: unread, inserted and updated at `now`.
pub open spec fn stored_entry(e: RemoteEntry, id: EntryId, feed_id: FeedId, now: i64) -> Entry {
    Entry {
        id,
        feed_id,
        title: e.title,
        author: e.author,
        pub_date: e.pub_date,
        description: e.description,
        content: e.content,
        link: e.link,
        read_at: None,
        inserted_at: now,
        updated_at: now,
    }
}

/// The rows that storing `es` in order, with ids from `first` on, gives.
pub open spec fn stored_entries(es: Seq<RemoteEntry>, first: int, feed_id: FeedId, now: i64) -> Seq<
    Entry,
> {
    Seq::new(es.len(), |i: int| stored_entry(es[i], (first + i) as i64, feed_id, now))
}

/// Stores all of `entries` for feed `feed_id`, or none of them.
pub fn add_entries_to_feed(
    store: &mut FeedStore,
    feed_id: FeedId,
    entries: &Vec<RemoteEntry>,
    now: i64,
) -> (r: Result<(), Error>)
    requires
        old(store).wf(),
    ensures
        final(store).wf(),
        entries@.len() == 0 ==> r is Ok && *final(store) == *old(store),
        match r {
            Ok(()) => {
                &&& entries@.len() > 0 ==> has_feed(old(store).feeds@, feed_id)
                &&& old(store).next_entry_id + entries@.len() <= i64::MAX
                &&& final(store).entries@ == old(store).entries@ + stored_entries(
                    entries@,
                    old(store).next_entry_id as int,
                    feed_id,
                    now,
                )
                &&& final(store).next_entry_id == old(store).next_entry_id + entries@.len()
                &&& final(store).feeds@ == old(store).feeds@
                &&& final(store).next_feed_id == old(store).next_feed_id
            },
            Err(e) => {
                &&& *final(store) == *old(store)
                &&& entries@.len() > 0
                &&& !has_feed(old(store).feeds@, feed_id) ==> e == Error::NotFound
                &&& has_feed(old(store).feeds@, feed_id) ==> e == Error::StorageError
                    && old(store).next_entry_id + entries@.len() > i64::MAX
            },
        },
{
    if entries.len() == 0 {
        assert(stored_entries(entries@, store.next_entry_id as int, feed_id, now) =~= Seq::<
            Entry,
        >::empty());
        assert(store.entries@ + Seq::<Entry>::empty() =~= store.entries@);
        return Ok(());
    }
    if find_feed(store, feed_id).is_none() {
        return Err(Error::NotFound);
    }
    if entries.len() as u64 > (i64::MAX - store.next_entry_id) as u64 {
        return Err(Error::StorageError);
    }
    let ghost old_store = *store;
    let first = store.next_entry_id;
    let mut i: usize = 0;
    while i < entries.len()
        invariant
            old_store.wf(),
            has_feed(old_store.feeds@, feed_id),
            first == old_store.next_entry_id,
            first + entries@.len() <= i64::MAX,
            i <= entries@.len(),
            store.feeds@ == old_store.feeds@,
            store.next_feed_id == old_store.next_feed_id,
            store.next_entry_id == first + i,
            store.entries@ == old_store.entries@ + stored_entries(
                entries@.subrange(0, i as int),
                first as int,
                feed_id,
                now,
            ),
        decreases entries@.len() - i,
    {
        let e = &entries[i];
        let row = Entry {
            id: store.next_entry_id,
            feed_id,
            title: clone_string_opt(&e.title),
            author: clone_string_opt(&e.author),
            pub_date: e.pub_date,
            description: clone_string_opt(&e.description),
            content: clone_string_opt(&e.content),
            link: clone_string_opt(&e.link),
            read_at: None,
            inserted_at: now,
            updated_at: now,
        };
        store.entries.push(row);
        store.next_entry_id = store.next_entry_id + 1;
        assert(stored_entries(entries@.subrange(0, i + 1), first as int, feed_id, now)
            =~= stored_entries(entries@.subrange(0, i as int), first as int, feed_id, now).push(
            row,
        ));
        i = i + 1;
    }
    assert(entries@.subrange(0, entries@.len() as int) =~= entries@);
    let ghost n = old_store.entries@.len();
    assert forall|a: int, b: int| 0 <= a < b < store.entries@.len() implies store.entries@[a].id
        < store.entries@[b].id by {
        if b >= n && a < n {
            assert(old_store.entries@[a].id < old_store.next_entry_id);
        }
    }
    assert forall|a: int| 0 <= a < store.entries@.len() implies 0 < #[trigger] store.entries@[a].id
        < store.next_entry_id && has_feed(store.feeds@, store.entries@[a].feed_id) by {
        if a < n {
            assert(store.entries@[a] == old_store.entries@[a]);
        }
    }
    Ok(())
}

/// `entries` with the read time of the entry with id `id` set to `read_at`.
pub open spec fn with_read_at(entries: Seq<Entry>, id: EntryId, read_at: Option<i64>) -> Seq<Entry> {
    Seq::new(
        entries.len(),
        |k: int|
            if entries[k].id == id {
                Entry { read_at, ..entries[k] }
            } else {
                entries[k]
            },
    )
}

/// Marks the entry with id `entry_id` read at `read_at`, or unread when it is
/// `None`.
pub fn set_read_at(store: &mut FeedStore, entry_id: EntryId, read_at: Option<i64>) -> (r: Result<
    (),
    Error,
>)
    requires
        old(store).wf(),
    ensures
            r is Err ==> *final(store) == *old(store),
        final(store).wf(),
        final(store).feeds@ == old(store).feeds@,
        final(store).next_feed_id == old(store).next_feed_id,
        final(store).next_entry_id == old(store).next_entry_id,
        match r {
            Ok(()) => has_entry(old(store).entries@, entry_id) && final(store).entries@
                == with_read_at(old(store).entries@, entry_id, read_at),
            Err(e) => !has_entry(old(store).entries@, entry_id) && e == Error::NotFound
                && final(store).entries@ == old(store).entries@,
        },
{
    match find_entry(store, entry_id) {
        Some(i) => {
            let ghost old_es = store.entries@;
            let e = &store.entries[i];
            let row = Entry {
                id: e.id,
                feed_id: e.feed_id,
                title: clone_string_opt(&e.title),
                author: clone_string_opt(&e.author),
                pub_date: e.pub_date,
                description: clone_string_opt(&e.description),
                content: clone_string_opt(&e.content),
                link: clone_string_opt(&e.link),
                read_at,
                inserted_at: e.inserted_at,
                updated_at: e.updated_at,
            };
            store.entries.set(i, row);
            assert forall|k: int| 0 <= k < old_es.len() && k != i implies old_es[k].id != entry_id by {
                if k < i {
                    assert(old_es[k].id < old_es[i as int].id);
                } else {
                    assert(old_es[i as int].id < old_es[k].id);
                }
            }
            assert(store.entries@ =~= with_read_at(old_es, entry_id, read_at));
            Ok(())
        },
        None => Err(Error::NotFound),
    }
}

/// `feeds` with the fetch time of the feed with id `id` set to `now`.
pub open spec fn touched(feeds: Seq<Feed>, id: FeedId, now: i64) -> Seq<Feed> {
    Seq::new(
        feeds.len(),
        |k: int|
            if feeds[k].id == id {
                Feed { refreshed_at: Some(now), ..feeds[k] }
            } else {
                feeds[k]
            },
    )
}

/// Records `now` as the time the feed with id `feed_id` was last fetched.
pub fn update_feed_refreshed_at(store: &mut FeedStore, feed_id: FeedId, now: i64) -> (r: Result<
    (),
    Error,
>)
    requires
        old(store).wf(),
    ensures
        final(store).wf(),
        final(store).entries@ == old(store).entries@,
        final(store).next_feed_id == old(store).next_feed_id,
        final(store).next_entry_id == old(store).next_entry_id,
        final(store).feeds@.len() == old(store).feeds@.len(),
        match r {
            Ok(()) => has_feed(old(store).feeds@, feed_id) && final(store).feeds@ == touched(
                old(store).feeds@,
                feed_id,
                now,
            ),
            Err(e) => !has_feed(old(store).feeds@, feed_id) && e == Error::NotFound
                && final(store).feeds@ == old(store).feeds@,
        },
{
    match find_feed(store, feed_id) {
        Some(i) => {
            let ghost old_fs = store.feeds@;
            let f = store.feeds[i].duplicate();
            let row = Feed { refreshed_at: Some(now), ..f };
            store.feeds.set(i, row);
            assert forall|k: int| 0 <= k < old_fs.len() && k != i implies old_fs[k].id != feed_id by {
                if k < i {
                    assert(old_fs[k].id < old_fs[i as int].id);
                } else {
                    assert(old_fs[i as int].id < old_fs[k].id);
                }
            }
            assert(store.feeds@ == old_fs.update(i as int, row));
            assert(store.feeds@ =~= touched(old_fs, feed_id, now));
            assert forall|a: int| 0 <= a < store.entries@.len() implies has_feed(
                store.feeds@,
                #[trigger] store.entries@[a].feed_id,
            ) by {
                assert(0 < store.entries@[a].id);
                let k = choose|k: int| 0 <= k < old_fs.len() && old_fs[k].id == store.entries@[a].feed_id;
                assert(store.feeds@[k].id == old_fs[k].id);
            }
            Ok(())
        },
        None => Err(Error::NotFound),
    }
}

impl EntryMeta {
    /// Marks this entry read at `now` if it is unread, else unread.
    pub fn toggle_read(&self, store: &mut FeedStore, now: i64) -> (r: Result<(), Error>)
        requires
            old(store).wf(),
        ensures
            r is Err ==> *final(store) == *old(store),
            final(store).wf(),
            final(store).feeds@ == old(store).feeds@,
            match r {
                Ok(()) => has_entry(old(store).entries@, self.id) && final(store).entries@
                    == with_read_at(
                    old(store).entries@,
                    self.id,
                    if self.read_at is None {
                        Some(now)
                    } else {
                        None
                    },
                ),
                Err(e) => !has_entry(old(store).entries@, self.id) && e == Error::NotFound
                    && final(store).entries@ == old(store).entries@,
            },
    {
        if self.read_at.is_none() {
            self.mark_as_read(store, now)
        } else {
            self.mark_as_unread(store)
        }
    }

    fn mark_as_read(&self, store: &mut FeedStore, now: i64) -> (r: Result<(), Error>)
        requires
            old(store).wf(),
        ensures
            r is Err ==> *final(store) == *old(store),
            final(store).wf(),
            final(store).feeds@ == old(store).feeds@,
            match r {
                Ok(()) => has_entry(old(store).entries@, self.id) && final(store).entries@
                    == with_read_at(old(store).entries@, self.id, Some(now)),
                Err(e) => !has_entry(old(store).entries@, self.id) && e == Error::NotFound
                    && final(store).entries@ == old(store).entries@,
            },
    {
        set_read_at(store, self.id, Some(now))
    }

    fn mark_as_unread(&self, store: &mut FeedStore) -> (r: Result<(), Error>)
        requires
            old(store).wf(),
        ensures
            r is Err ==> *final(store) == *old(store),
            final(store).wf(),
            final(store).feeds@ == old(store).feeds@,
            match r {
                Ok(()) => has_entry(old(store).entries@, self.id) && final(store).entries@
                    == with_read_at(old(store).entries@, self.id, None),
                Err(e) => !has_entry(old(store).entries@, self.id) && e == Error::NotFound
                    && final(store).entries@ == old(store).entries@,
            },
    {
        set_read_at(store, self.id, None)
    }
}

/// Every entry of a feed is listed either as unread or as read, never as
/// both; together those are exactly the entries listed when all are shown.
pub proof fn lemma_read_filter_partition(store: FeedStore, feed_id: FeedId, id: EntryId)
    requires
        store.wf(),
    ensures
        listed_id(store.entries@, feed_id, ReadMode::ShowUnread, id) || listed_id(
            store.entries@,
            feed_id,
            ReadMode::ShowRead,
            id,
        ) <==> listed_id(store.entries@, feed_id, ReadMode::All, id),
        !(listed_id(store.entries@, feed_id, ReadMode::ShowUnread, id) && listed_id(
            store.entries@,
            feed_id,
            ReadMode::ShowRead,
            id,
        )),
{
    let es = store.entries@;
    if listed_id(es, feed_id, ReadMode::All, id) {
        let k = choose|k: int| listed_at(es, feed_id, ReadMode::All, k) && es[k].id == id;
        if es[k].read_at is None {
            assert(listed_at(es, feed_id, ReadMode::ShowUnread, k));
        } else {
            assert(listed_at(es, feed_id, ReadMode::ShowRead, k));
        }
    }
    if listed_id(es, feed_id, ReadMode::ShowUnread, id) {
        let k = choose|k: int| listed_at(es, feed_id, ReadMode::ShowUnread, k) && es[k].id == id;
        assert(listed_at(es, feed_id, ReadMode::All, k));
    }
    if listed_id(es, feed_id, ReadMode::ShowRead, id) {
        let k = choose|k: int| listed_at(es, feed_id, ReadMode::ShowRead, k) && es[k].id == id;
        assert(listed_at(es, feed_id, ReadMode::All, k));
    }
    if listed_id(es, feed_id, ReadMode::ShowUnread, id) && listed_id(
        es,
        feed_id,
        ReadMode::ShowRead,
        id,
    ) {
        let a = choose|k: int| listed_at(es, feed_id, ReadMode::ShowUnread, k) && es[k].id == id;
        let b = choose|k: int| listed_at(es, feed_id, ReadMode::ShowRead, k) && es[k].id == id;
        assert(a == b) by {
            if a < b {
                assert(es[a].id < es[b].id);
            } else if b < a {
                assert(es[b].id < es[a].id);
            }
        }
    }
}

/// Marking an entry read and then unread leaves it listed as unread and not
/// listed as read.
pub proof fn lemma_toggle_round_trip(entries: Seq<Entry>, id: EntryId, now: i64)
    ensures
        forall|k: int|
            0 <= k < entries.len() && entries[k].id == id ==> listed_id(
                with_read_at(with_read_at(entries, id, Some(now)), id, None),
                #[trigger] entries[k].feed_id,
                ReadMode::ShowUnread,
                id,
            ),
        forall|f: FeedId|
            !listed_id(
                #[trigger] with_read_at(with_read_at(entries, id, Some(now)), id, None),
                f,
                ReadMode::ShowRead,
                id,
            ),
{
    let s2 = with_read_at(with_read_at(entries, id, Some(now)), id, None);
    assert forall|k: int| 0 <= k < entries.len() && entries[k].id == id implies listed_id(
        s2,
        #[trigger] entries[k].feed_id,
        ReadMode::ShowUnread,
        id,
    ) by {
        assert(listed_at(s2, entries[k].feed_id, ReadMode::ShowUnread, k));
    }
    assert forall|f: FeedId| !listed_id(s2, f, ReadMode::ShowRead, id) by {
        if listed_id(s2, f, ReadMode::ShowRead, id) {
            let k = choose|k: int| listed_at(s2, f, ReadMode::ShowRead, k) && s2[k].id == id;
            assert(s2[k].read_at is None);
        }
    }
}

/// A character with ASCII capitals folded to small letters, as a code point.
pub open spec fn fold(c: char) -> u32 {
    if 'A' <= c <= 'Z' {
        (c as u32 + 32) as u32
    } else {
        c as u32
    }
}

/// A text with ASCII capitals folded to small letters, as code points.
pub open spec fn folded(s: Seq<char>) -> Seq<u32> {
    s.map_values(|c: char| fold(c))
}

fn fold_char(c: char) -> (r: u32)
    ensures
        r == fold(c),
{
    if 'A' <= c && c <= 'Z' {
        c as u32 + 32
    } else {
        c as u32
    }
}

/// Lexicographic order of code point sequences, a proper prefix first.
pub open spec fn text_less(a: Seq<u32>, b: Seq<u32>) -> bool
    decreases a.len(),
{
    if a.len() == 0 {
        b.len() > 0
    } else if b.len() == 0 {
        false
    } else if a[0] != b[0] {
        a[0] < b[0]
    } else {
        text_less(a.drop_first(), b.drop_first())
    }
}

proof fn lemma_text_less_transitive(a: Seq<u32>, b: Seq<u32>, c: Seq<u32>)
    requires
        text_less(a, b),
        text_less(b, c),
    ensures
        text_less(a, c),
    decreases a.len(),
{
    if a.len() > 0 && b.len() > 0 && c.len() > 0 && a[0] == b[0] && b[0] == c[0] {
        lemma_text_less_transitive(a.drop_first(), b.drop_first(), c.drop_first());
    }
}

proof fn lemma_text_less_total(a: Seq<u32>, b: Seq<u32>)
    ensures
        a == b || text_less(a, b) || text_less(b, a),
        !(text_less(a, b) && text_less(b, a)),
    decreases a.len(),
{
    if a.len() > 0 && b.len() > 0 && a[0] == b[0] {
        lemma_text_less_total(a.drop_first(), b.drop_first());
        if a.drop_first() == b.drop_first() {
            assert(a =~= seq![a[0]] + a.drop_first());
            assert(b =~= seq![b[0]] + b.drop_first());
        }
    } else if a.len() == 0 && b.len() == 0 {
        assert(a =~= b);
    }
}

/// Whether `a` comes before `b` when compared with ASCII case ignored.
pub fn is_folded_less(a: &str, b: &str) -> (r: bool)
    ensures
        r == text_less(folded(a@), folded(b@)),
{
    let n = a.unicode_len();
    let m = b.unicode_len();
    let ghost fa = folded(a@);
    let ghost fb = folded(b@);
    let mut i: usize = 0;
    assert(fa.subrange(0, n as int) =~= fa);
    assert(fb.subrange(0, m as int) =~= fb);
    while i < n && i < m && fold_char(a.get_char(i)) == fold_char(b.get_char(i))
        invariant
            n == a@.len(),
            m == b@.len(),
            fa == folded(a@),
            fb == folded(b@),
            i <= n,
            i <= m,
            text_less(fa, fb) == text_less(fa.subrange(i as int, n as int), fb.subrange(
                i as int,
                m as int,
            )),
        decreases n - i,
    {
        let ghost sa = fa.subrange(i as int, n as int);
        let ghost sb = fb.subrange(i as int, m as int);
        assert(sa.drop_first() =~= fa.subrange(i + 1, n as int));
        assert(sb.drop_first() =~= fb.subrange(i + 1, m as int));
        i = i + 1;
    }
    if i == n {
        i < m
    } else if i == m {
        false
    } else {
        fold_char(a.get_char(i)) < fold_char(b.get_char(i))
    }
}

/// Whether `a` and `b` are the same text with ASCII case ignored.
pub fn is_folded_eq(a: &str, b: &str) -> (r: bool)
    ensures
        r == (folded(a@) == folded(b@)),
{
    let n = a.unicode_len();
    if n != b.unicode_len() {
        assert(folded(a@).len() != folded(b@).len());
        return false;
    }
    let ghost fa = folded(a@);
    let ghost fb = folded(b@);
    let mut i: usize = 0;
    while i < n
        invariant
            n == a@.len(),
            n == b@.len(),
            fa == folded(a@),
            fb == folded(b@),
            i <= n,
            fa.subrange(0, i as int) == fb.subrange(0, i as int),
        decreases n - i,
    {
        if fold_char(a.get_char(i)) != fold_char(b.get_char(i)) {
            assert(fa[i as int] != fb[i as int]);
            return false;
        }
        assert(fa.subrange(0, i + 1) =~= fa.subrange(0, i as int).push(fa[i as int]));
        assert(fb.subrange(0, i + 1) =~= fb.subrange(0, i as int).push(fb[i as int]));
        i = i + 1;
    }
    assert(fa =~= fa.subrange(0, n as int));
    assert(fb =~= fb.subrange(0, n as int));
    true
}

/// The order of the feed list: feeds without a title first, as SQL sorts
/// nulls; then by title with ASCII case ignored; then by id.
pub open spec fn feed_before(a: Feed, b: Feed) -> bool {
    match (a.title, b.title) {
        (None, None) => a.id < b.id,
        (None, Some(_)) => true,
        (Some(_), None) => false,
        (Some(x), Some(y)) => if folded(x@) != folded(y@) {
            text_less(folded(x@), folded(y@))
        } else {
            a.id < b.id
        },
    }
}

pub open spec fn sorted_feeds(s: Seq<Feed>) -> bool {
    forall|i: int, j: int| 0 <= i < j < s.len() ==> feed_before(s[i], s[j])
}

proof fn lemma_feed_before_transitive(a: Feed, b: Feed, c: Feed)
    requires
        feed_before(a, b),
        feed_before(b, c),
    ensures
        feed_before(a, c),
{
    if a.title is Some && b.title is Some && c.title is Some {
        let (x, y, z) = (folded(a.title->0@), folded(b.title->0@), folded(c.title->0@));
        lemma_text_less_total(x, y);
        lemma_text_less_total(y, z);
        lemma_text_less_total(x, z);
        if x != y && y != z {
            lemma_text_less_transitive(x, y, z);
        }
    }
}

proof fn lemma_feed_before_total(a: Feed, b: Feed)
    requires
        a.id != b.id,
    ensures
        feed_before(a, b) || feed_before(b, a),
{
    if a.title is Some && b.title is Some {
        lemma_text_less_total(folded(a.title->0@), folded(b.title->0@));
    }
}

fn is_feed_before(a: &Feed, b: &Feed) -> (r: bool)
    ensures
        r == feed_before(*a, *b),
{
    match (&a.title, &b.title) {
        (None, None) => a.id < b.id,
        (None, Some(_)) => true,
        (Some(_), None) => false,
        (Some(x), Some(y)) => {
            if !is_folded_eq(x.as_str(), y.as_str()) {
                is_folded_less(x.as_str(), y.as_str())
            } else {
                a.id < b.id
            }
        },
    }
}

fn insert_feed_in_order(v: &mut Vec<Feed>, f: Feed)
    requires
        sorted_feeds(old(v)@),
        forall|i: int| 0 <= i < old(v)@.len() ==> old(v)@[i].id != f.id,
    ensures
        sorted_feeds(final(v)@),
        final(v)@.len() == old(v)@.len() + 1,
        forall|x: Feed| final(v)@.contains(x) <==> (old(v)@.contains(x) || x == f),
{
    let mut pos: usize = 0;
    while pos < v.len() && !is_feed_before(&f, &v[pos])
        invariant
            pos <= v@.len(),
            forall|i: int| 0 <= i < pos ==> feed_before(v@[i], f),
            forall|i: int| 0 <= i < v@.len() ==> v@[i].id != f.id,
        decreases v@.len() - pos,
    {
        proof {
            lemma_feed_before_total(f, v@[pos as int]);
        }
        pos = pos + 1;
    }
    let ghost old_v = v@;
    v.insert(pos, f);
    assert(v@ == old_v.insert(pos as int, f));
    assert forall|i: int, j: int| 0 <= i < j < v@.len() implies feed_before(v@[i], v@[j]) by {
        if j < pos {
            assert(v@[i] == old_v[i]);
            assert(v@[j] == old_v[j]);
        } else if j == pos {
            assert(v@[i] == old_v[i]);
        } else if i < pos {
            assert(v@[i] == old_v[i]);
            assert(v@[j] == old_v[j - 1]);
            if j - 1 > pos {
                lemma_feed_before_transitive(f, old_v[pos as int], old_v[j - 1]);
            }
            lemma_feed_before_transitive(old_v[i], f, old_v[j - 1]);
        } else if i == pos {
            assert(v@[j] == old_v[j - 1]);
            if j - 1 > pos {
                lemma_feed_before_transitive(f, old_v[pos as int], old_v[j - 1]);
            }
        } else {
            assert(v@[i] == old_v[i - 1]);
            assert(v@[j] == old_v[j - 1]);
        }
    }
    assert forall|x: Feed| v@.contains(x) <==> (old_v.contains(x) || x == f) by {
        if v@.contains(x) {
            let k = choose|k: int| 0 <= k < v@.len() && v@[k] == x;
            if k < pos {
                assert(old_v[k] == x);
            } else if k > pos {
                assert(old_v[k - 1] == x);
            }
        }
        if old_v.contains(x) {
            let k = choose|k: int| 0 <= k < old_v.len() && old_v[k] == x;
            if k < pos {
                assert(v@[k] == x);
            } else {
                assert(v@[k + 1] == x);
            }
        }
        if x == f {
            assert(v@[pos as int] == f);
        }
    }
}

/// All feeds, in feed list order.
pub fn get_feeds(store: &FeedStore) -> (r: Vec<Feed>)
    requires
        store.wf(),
    ensures
        sorted_feeds(r@),
        r@.len() == store.feeds@.len(),
        forall|f: Feed| r@.contains(f) <==> store.feeds@.contains(f),
{
    let mut out: Vec<Feed> = Vec::new();
    let mut i: usize = 0;
    while i < store.feeds.len()
        invariant
            store.wf(),
            i <= store.feeds@.len(),
            out@.len() == i,
            sorted_feeds(out@),
            forall|f: Feed| out@.contains(f) <==> store.feeds@.subrange(0, i as int).contains(f),
        decreases store.feeds@.len() - i,
    {
        let f = store.feeds[i].duplicate();
        assert forall|j: int| 0 <= j < out@.len() implies out@[j].id != f.id by {
            let ghost pre = store.feeds@.subrange(0, i as int);
            assert(out@.contains(out@[j]));
            let k = choose|k: int| 0 <= k < pre.len() && pre[k] == out@[j];
            assert(store.feeds@[k].id < store.feeds@[i as int].id);
        }
        let ghost before = out@;
        insert_feed_in_order(&mut out, f);
        let ghost pre = store.feeds@.subrange(0, i as int);
        let ghost pre1 = store.feeds@.subrange(0, i + 1);
        assert(pre1 =~= pre.push(f));
        assert forall|x: Feed| out@.contains(x) <==> pre1.contains(x) by {
            if pre1.contains(x) {
                let k = choose|k: int| 0 <= k < pre1.len() && pre1[k] == x;
                if k < i {
                    assert(pre[k] == x);
                }
            }
            if pre.contains(x) {
                let k = choose|k: int| 0 <= k < pre.len() && pre[k] == x;
                assert(pre1[k] == x);
            }
            if x == f {
                assert(pre1[i as int] == x);
            }
        }
        i = i + 1;
    }
    assert(store.feeds@.subrange(0, store.feeds@.len() as int) =~= store.feeds@);
    out
}

/// The ids of all feeds, in feed list order.
pub fn get_feed_ids(store: &FeedStore) -> (r: Vec<FeedId>)
    requires
        store.wf(),
    ensures
        exists|fs: Seq<Feed>|
            {
                &&& sorted_feeds(fs)
                &&& fs.len() == store.feeds@.len()
                &&& forall|f: Feed| fs.contains(f) <==> store.feeds@.contains(f)
                &&& r@ == fs.map_values(|f: Feed| f.id)
            },
{
    let feeds = get_feeds(store);
    let mut ids: Vec<FeedId> = Vec::new();
    let mut i: usize = 0;
    while i < feeds.len()
        invariant
            i <= feeds@.len(),
            ids@ == feeds@.subrange(0, i as int).map_values(|f: Feed| f.id),
        decreases feeds@.len() - i,
    {
        ids.push(feeds[i].id);
        assert(feeds@.subrange(0, i + 1).map_values(|f: Feed| f.id) =~= feeds@.subrange(
            0,
            i as int,
        ).map_values(|f: Feed| f.id).push(feeds@[i as int].id));
        i = i + 1;
    }
    assert(feeds@.subrange(0, feeds@.len() as int) =~= feeds@);
    ids
}

/// Removes the feed with id `feed_id` and all of its entries.
pub fn delete_feed(store: &mut FeedStore, feed_id: FeedId) -> (r: Result<(), Error>)
    requires
        old(store).wf(),
    ensures
        final(store).wf(),
        match r {
            Ok(()) => {
                &&& has_feed(old(store).feeds@, feed_id)
                &&& forall|f: Feed|
                    final(store).feeds@.contains(f) <==> old(store).feeds@.contains(f) && f.id
                        != feed_id
                &&& forall|e: Entry|
                    final(store).entries@.contains(e) <==> old(store).entries@.contains(e)
                        && e.feed_id != feed_id
                &&& final(store).next_feed_id == old(store).next_feed_id
                &&& final(store).next_entry_id == old(store).next_entry_id
            },
            Err(e) => e == Error::NotFound && !has_feed(old(store).feeds@, feed_id) && *final(store) == *old(store),
        },
{
    if find_feed(store, feed_id).is_none() {
        return Err(Error::NotFound);
    }
    let ghost old_store = *store;
    let fs = &store.feeds;
    let mut feeds: Vec<Feed> = Vec::new();
    let mut i: usize = 0;
    while i < fs.len()
        invariant
            old_store.wf(),
            *fs == old_store.feeds,
            i <= fs@.len(),
            forall|k: int| 0 <= k < feeds@.len() ==> 0 < #[trigger] feeds@[k].id < old_store.next_feed_id && feed_ok(feeds@[k]),
            forall|a: int, b: int| 0 <= a < b < feeds@.len() ==> feeds@[a].id < feeds@[b].id,
            forall|k: int| 0 <= k < feeds@.len() ==> (#[trigger] feeds@[k]).id != feed_id,
            forall|x: Feed| feeds@.contains(x) ==> exists|k: int| 0 <= k < i && fs@[k] == x,
            forall|k: int| 0 <= k < i && fs@[k].id != feed_id ==> feeds@.contains(#[trigger] fs@[k]),
        decreases fs@.len() - i,
    {
        if fs[i].id != feed_id {
            let ghost before = feeds@;
            assert forall|k: int| 0 <= k < before.len() implies before[k].id < fs@[i as int].id by {
                assert(before.contains(before[k]));
                let t = choose|t: int| 0 <= t < i && fs@[t] == before[k];
            }
            feeds.push(fs[i].duplicate());
            assert forall|x: Feed| feeds@.contains(x) implies exists|k: int| 0 <= k < i + 1 && fs@[k] == x by {
                let j = choose|j: int| 0 <= j < feeds@.len() && feeds@[j] == x;
                if j < before.len() {
                    assert(before.contains(x));
                } else {
                    assert(fs@[i as int] == x);
                }
            }
            assert forall|k: int| 0 <= k < i + 1 && fs@[k].id != feed_id implies feeds@.contains(#[trigger] fs@[k]) by {
                if k < i {
                    let j = choose|j: int| 0 <= j < before.len() && before[j] == fs@[k];
                    assert(feeds@[j] == fs@[k]);
                } else {
                    assert(feeds@[before.len() as int] == fs@[k]);
                }
            }
        }
        i = i + 1;
    }
    let es = &store.entries;
    let mut entries: Vec<Entry> = Vec::new();
    let mut j: usize = 0;
    while j < es.len()
        invariant
            old_store.wf(),
            *es == old_store.entries,
            j <= es@.len(),
            forall|k: int| 0 <= k < i && old_store.feeds@[k].id != feed_id ==> feeds@.contains(#[trigger] old_store.feeds@[k]),
            i == old_store.feeds@.len(),
            forall|k: int| 0 <= k < entries@.len() ==> 0 < #[trigger] entries@[k].id < old_store.next_entry_id && has_feed(feeds@, entries@[k].feed_id),
            forall|a: int, b: int| 0 <= a < b < entries@.len() ==> entries@[a].id < entries@[b].id,
            forall|k: int| 0 <= k < entries@.len() ==> (#[trigger] entries@[k]).feed_id != feed_id,
            forall|x: Entry| entries@.contains(x) ==> exists|k: int| 0 <= k < j && es@[k] == x,
            forall|k: int| 0 <= k < j && es@[k].feed_id != feed_id ==> entries@.contains(#[trigger] es@[k]),
        decreases es@.len() - j,
    {
        if es[j].feed_id != feed_id {
            let ghost before = entries@;
            proof {
                let e = es@[j as int];
                assert(0 < e.id);
                assert(has_feed(old_store.feeds@, e.feed_id));
                let t = choose|t: int|
                    0 <= t < old_store.feeds@.len() && old_store.feeds@[t].id == e.feed_id;
                assert(feeds@.contains(old_store.feeds@[t]));
                let u = choose|u: int| 0 <= u < feeds@.len() && feeds@[u] == old_store.feeds@[t];
                assert(has_feed(feeds@, e.feed_id));
            }
            assert forall|k: int| 0 <= k < before.len() implies before[k].id < es@[j as int].id by {
                assert(before.contains(before[k]));
                let t = choose|t: int| 0 <= t < j && es@[t] == before[k];
            }
            entries.push(es[j].duplicate());
            assert forall|x: Entry| entries@.contains(x) implies exists|k: int| 0 <= k < j + 1 && es@[k] == x by {
                let q = choose|q: int| 0 <= q < entries@.len() && entries@[q] == x;
                if q < before.len() {
                    assert(before.contains(x));
                } else {
                    assert(es@[j as int] == x);
                }
            }
            assert forall|k: int| 0 <= k < j + 1 && es@[k].feed_id != feed_id implies entries@.contains(#[trigger] es@[k]) by {
                if k < j {
                    let q = choose|q: int| 0 <= q < before.len() && before[q] == es@[k];
                    assert(entries@[q] == es@[k]);
                } else {
                    assert(entries@[before.len() as int] == es@[k]);
                }
            }
        }
        j = j + 1;
    }
    store.feeds = feeds;
    store.entries = entries;
    assert forall|f: Feed| store.feeds@.contains(f) <==> old_store.feeds@.contains(f) && f.id != feed_id by {
        if store.feeds@.contains(f) {
            let q = choose|q: int| 0 <= q < store.feeds@.len() && store.feeds@[q] == f;
        }
        if old_store.feeds@.contains(f) && f.id != feed_id {
            let k = choose|k: int| 0 <= k < old_store.feeds@.len() && old_store.feeds@[k] == f;
        }
    }
    assert forall|e: Entry| store.entries@.contains(e) <==> old_store.entries@.contains(e) && e.feed_id != feed_id by {
        if store.entries@.contains(e) {
            let q = choose|q: int| 0 <= q < store.entries@.len() && store.entries@[q] == e;
        }
        if old_store.entries@.contains(e) && e.feed_id != feed_id {
            let k = choose|k: int| 0 <= k < old_store.entries@.len() && old_store.entries@[k] == e;
        }
    }
    Ok(())
}

impl Entry {
    pub fn duplicate(&self) -> (r: Entry)
        ensures
            r == *self,
    {
        Entry {
            id: self.id,
            feed_id: self.feed_id,
            title: clone_string_opt(&self.title),
            author: clone_string_opt(&self.author),
            pub_date: self.pub_date,
            description: clone_string_opt(&self.description),
            content: clone_string_opt(&self.content),
            link: clone_string_opt(&self.link),
            read_at: self.read_at,
            inserted_at: self.inserted_at,
            updated_at: self.updated_at,
        }
    }
}

/// A row's id and one of its times, as they were when a store was marked.
#[derive(Clone, Copy, Debug, PartialEq, Eq, Structural)]
pub struct RowMark {
    pub id: i64,
    pub time: Option<i64>,
}

/// What a store held when it was marked: each feed's fetch time and each
/// entry's read time, by position.
pub struct StoreMark {
    pub feeds: Vec<RowMark>,
    pub entries: Vec<RowMark>,
}

/// What changed in a store since it was marked: the rows from these
/// positions on are new, and the rows at these positions kept their id but
/// changed their fetch or read time.
pub struct StoreChanges {
    pub new_feeds_from: usize,
    pub new_entries_from: usize,
    pub touched_feeds: Vec<usize>,
    pub toggled_entries: Vec<usize>,
}

/// Whether the feed at `k` existed when marked and was fetched since.
pub open spec fn feed_touched(marks: Seq<RowMark>, feeds: Seq<Feed>, k: int) -> bool {
    0 <= k < marks.len() && k < feeds.len() && marks[k].id == feeds[k].id && marks[k].time
        != feeds[k].refreshed_at
}

/// Whether the entry at `k` existed when marked and its read time changed
/// since.
pub open spec fn entry_toggled(marks: Seq<RowMark>, entries: Seq<Entry>, k: int) -> bool {
    0 <= k < marks.len() && k < entries.len() && marks[k].id == entries[k].id && marks[k].time
        != entries[k].read_at
}

pub open spec fn increasing(v: Seq<usize>) -> bool {
    forall|a: int, b: int| 0 <= a < b < v.len() ==> v[a] < v[b]
}

impl FeedStore {
    /// Marks the store, to find later what changed.
    pub fn mark(&self) -> (r: StoreMark)
        ensures
            r.feeds@.len() == self.feeds@.len(),
            r.entries@.len() == self.entries@.len(),
            forall|k: int|
                0 <= k < r.feeds@.len() ==> #[trigger] r.feeds@[k] == (RowMark {
                    id: self.feeds@[k].id,
                    time: self.feeds@[k].refreshed_at,
                }),
            forall|k: int|
                0 <= k < r.entries@.len() ==> #[trigger] r.entries@[k] == (RowMark {
                    id: self.entries@[k].id,
                    time: self.entries@[k].read_at,
                }),
    {
        let mut feeds: Vec<RowMark> = Vec::new();
        let mut i: usize = 0;
        while i < self.feeds.len()
            invariant
                i <= self.feeds@.len(),
                feeds@.len() == i,
                forall|k: int|
                    0 <= k < i ==> #[trigger] feeds@[k] == (RowMark {
                        id: self.feeds@[k].id,
                        time: self.feeds@[k].refreshed_at,
                    }),
            decreases self.feeds@.len() - i,
        {
            feeds.push(RowMark { id: self.feeds[i].id, time: self.feeds[i].refreshed_at });
            i = i + 1;
        }
        let mut entries: Vec<RowMark> = Vec::new();
        let mut j: usize = 0;
        while j < self.entries.len()
            invariant
                j <= self.entries@.len(),
                entries@.len() == j,
                forall|k: int|
                    0 <= k < j ==> #[trigger] entries@[k] == (RowMark {
                        id: self.entries@[k].id,
                        time: self.entries@[k].read_at,
                    }),
            decreases self.entries@.len() - j,
        {
            entries.push(RowMark { id: self.entries[j].id, time: self.entries[j].read_at });
            j = j + 1;
        }
        StoreMark { feeds, entries }
    }

    /// What changed since `mark` was taken.
    pub fn changes_since(&self, mark: &StoreMark) -> (r: StoreChanges)
        ensures
            r.new_feeds_from == if mark.feeds@.len() <= self.feeds@.len() {
                mark.feeds@.len()
            } else {
                self.feeds@.len()
            },
            r.new_entries_from == if mark.entries@.len() <= self.entries@.len() {
                mark.entries@.len()
            } else {
                self.entries@.len()
            },
            increasing(r.touched_feeds@),
            forall|k: usize|
                #![trigger r.touched_feeds@.contains(k)]
                #![trigger feed_touched(mark.feeds@, self.feeds@, k as int)]
                r.touched_feeds@.contains(k) <==> feed_touched(mark.feeds@, self.feeds@, k as int),
            increasing(r.toggled_entries@),
            forall|k: usize|
                #![trigger r.toggled_entries@.contains(k)]
                #![trigger entry_toggled(mark.entries@, self.entries@, k as int)]
                r.toggled_entries@.contains(k) <==> entry_toggled(
                    mark.entries@,
                    self.entries@,
                    k as int,
                ),
    {
        let nf = if mark.feeds.len() <= self.feeds.len() {
            mark.feeds.len()
        } else {
            self.feeds.len()
        };
        let mut touched: Vec<usize> = Vec::new();
        let mut i: usize = 0;
        while i < nf
            invariant
                nf <= mark.feeds@.len(),
                nf <= self.feeds@.len(),
                nf == mark.feeds@.len() || nf == self.feeds@.len(),
                i <= nf,
                increasing(touched@),
                forall|t: int| 0 <= t < touched@.len() ==> touched@[t] < i,
                forall|k: usize|
                    #![trigger touched@.contains(k)]
                    #![trigger feed_touched(mark.feeds@, self.feeds@, k as int)]
                    touched@.contains(k) <==> (k < i && feed_touched(mark.feeds@, self.feeds@, k as int)),
            decreases nf - i,
        {
            let m = mark.feeds[i];
            let f = &self.feeds[i];
            let ghost before = touched@;
            if m.id == f.id && m.time != f.refreshed_at {
                touched.push(i);
            }
            assert forall|k: usize|
                #![trigger touched@.contains(k)]
                #![trigger feed_touched(mark.feeds@, self.feeds@, k as int)]
                touched@.contains(k) <==> (k < i + 1 && feed_touched(mark.feeds@, self.feeds@, k as int)) by {
                if touched@.contains(k) {
                    let t = choose|t: int| 0 <= t < touched@.len() && touched@[t] == k;
                    if t < before.len() {
                        assert(before.contains(k));
                    }
                }
                if k < i && feed_touched(mark.feeds@, self.feeds@, k as int) {
                    assert(before.contains(k));
                    let t = choose|t: int| 0 <= t < before.len() && before[t] == k;
                    assert(touched@[t] == k);
                }
                if k == i && feed_touched(mark.feeds@, self.feeds@, k as int) {
                    assert(touched@[touched@.len() - 1] == i);
                }
            }
            i = i + 1;
        }
        let ne = if mark.entries.len() <= self.entries.len() {
            mark.entries.len()
        } else {
            self.entries.len()
        };
        let mut toggled: Vec<usize> = Vec::new();
        let mut j: usize = 0;
        while j < ne
            invariant
                ne <= mark.entries@.len(),
                ne <= self.entries@.len(),
                ne == mark.entries@.len() || ne == self.entries@.len(),
                j <= ne,
                increasing(toggled@),
                forall|t: int| 0 <= t < toggled@.len() ==> toggled@[t] < j,
                forall|k: usize|
                    #![trigger toggled@.contains(k)]
                    #![trigger entry_toggled(mark.entries@, self.entries@, k as int)]
                    toggled@.contains(k) <==> (k < j && entry_toggled(mark.entries@, self.entries@, k as int)),
            decreases ne - j,
        {
            let m = mark.entries[j];
            let e = &self.entries[j];
            let ghost before = toggled@;
            if m.id == e.id && m.time != e.read_at {
                toggled.push(j);
            }
            assert forall|k: usize|
                #![trigger toggled@.contains(k)]
                #![trigger entry_toggled(mark.entries@, self.entries@, k as int)]
                toggled@.contains(k) <==> (k < j + 1 && entry_toggled(mark.entries@, self.entries@, k as int)) by {
                if toggled@.contains(k) {
                    let t = choose|t: int| 0 <= t < toggled@.len() && toggled@[t] == k;
                    if t < before.len() {
                        assert(before.contains(k));
                    }
                }
                if k < j && entry_toggled(mark.entries@, self.entries@, k as int) {
                    assert(before.contains(k));
                    let t = choose|t: int| 0 <= t < before.len() && before[t] == k;
                    assert(toggled@[t] == k);
                }
                if k == j && entry_toggled(mark.entries@, self.entries@, k as int) {
                    assert(toggled@[toggled@.len() - 1] == j);
                }
            }
            j = j + 1;
        }
        StoreChanges {
            new_feeds_from: nf,
            new_entries_from: ne,
            touched_feeds: touched,
            toggled_entries: toggled,
        }
    }
}

} // verus!
