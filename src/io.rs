//! Refreshing many feeds at once: splitting the work into chunks, applying
//! each feed's fetched document, and summing up the outcome.
use crate::error::Error;
use crate::rss::FeedId;
use crate::rss::Entry;
use crate::store::{has_feed, stored_entries, touched, FeedStore};
use crate::sync::{feed_links, fresh_entries, parsed_entries, parsed_kind};
use crate::sync::refresh_feed;
use vstd::prelude::*;

verus! {

/// How many items each chunk takes.
pub open spec fn chunk_size(len: nat, minimum_number_of_threads: nat) -> nat {
    if len / minimum_number_of_threads >= 1 {
        len / minimum_number_of_threads
    } else {
        1
    }
}

/// Splits `items` into consecutive chunks of `len / minimum_number_of_threads`
/// items each, at least one, so that each chunk can run on its own thread; the
/// last chunk may be shorter.
pub fn chunkify_for_threads(items: &[FeedId], minimum_number_of_threads: usize) -> (r: Vec<
    Vec<FeedId>,
>)
    requires
        minimum_number_of_threads > 0,
    ensures
        ({
            let cs = chunk_size(items@.len(), minimum_number_of_threads as nat);
            &&& forall|i: int|
                0 <= i < r@.len() ==> (#[trigger] r@[i])@ == items@.subrange(
                    i * cs,
                    if (i + 1) * cs <= items@.len() {
                        (i + 1) * cs
                    } else {
                        items@.len() as int
                    },
                )
            &&& r@.len() * cs >= items@.len()
            &&& r@.len() == 0 || (r@.len() - 1) * cs < items@.len()
        }),
{
    let len = items.len();
    let q = len / minimum_number_of_threads;
    let cs: usize = if q >= 1 {
        q
    } else {
        1
    };
    let mut out: Vec<Vec<FeedId>> = Vec::new();
    let mut start: usize = 0;
    while start < len
        invariant
            len == items@.len(),
            cs == chunk_size(len as nat, minimum_number_of_threads as nat),
            cs >= 1,
            start <= len,
            start == if out@.len() * cs <= len {
                out@.len() * cs
            } else {
                len as int
            },
            out@.len() == 0 || (out@.len() - 1) * cs < len,
            forall|i: int|
                0 <= i < out@.len() ==> (#[trigger] out@[i])@ == items@.subrange(
                    i * cs,
                    if (i + 1) * cs <= len {
                        (i + 1) * cs
                    } else {
                        len as int
                    },
                ),
        decreases len - start,
    {
        let end: usize = if len - start > cs {
            start + cs
        } else {
            len
        };
        let mut chunk: Vec<FeedId> = Vec::new();
        let mut k: usize = start;
        while k < end
            invariant
                start <= k <= end,
                end <= items@.len(),
                chunk@ == items@.subrange(start as int, k as int),
            decreases end - k,
        {
            chunk.push(items[k]);
            assert(items@.subrange(start as int, k + 1) =~= items@.subrange(
                start as int,
                k as int,
            ).push(items@[k as int]));
            k = k + 1;
        }
        let ghost n = out@.len();
        assert(start == n * cs);
        assert((n + 1) * cs == n * cs + cs) by (nonlinear_arith);
        out.push(chunk);
        start = end;
    }
    out
}

/// What fetching one feed's document gave: its body, or the network error.
pub struct FetchOutcome {
    pub feed_id: FeedId,
    pub body: Result<String, Error>,
}

/// How refreshing one feed went: the number of entries stored, or the error.
pub struct RefreshResult {
    pub feed_id: FeedId,
    pub result: Result<usize, Error>,
}

/// The tables and id counters of a store.
pub struct StoreState {
    pub feeds: Seq<crate::rss::Feed>,
    pub entries: Seq<Entry>,
    pub next_feed_id: int,
    pub next_entry_id: int,
}

pub open spec fn state_of(s: FeedStore) -> StoreState {
    StoreState {
        feeds: s.feeds@,
        entries: s.entries@,
        next_feed_id: s.next_feed_id as int,
        next_entry_id: s.next_entry_id as int,
    }
}

/// The entries that refreshing feed `id` from `body` stores: those of the
/// document new against every link stored for that feed.
pub open spec fn fresh_for(st: StoreState, id: FeedId, body: Seq<char>) -> Seq<crate::rss::RemoteEntry> {
    fresh_entries(parsed_entries(body), feed_links(st.entries, id))
}

/// How refreshing one feed from its fetch outcome goes on a store: the
/// fetch error; `NotFound` for a feed not stored; `UnrecognizedFeedFormat`
/// for a body that is no feed; `StorageError` when the new entries' ids
/// would not fit; else the number of entries stored.
pub open spec fn step_result(st: StoreState, f: FetchOutcome) -> Result<usize, Error> {
    match f.body {
        Err(e) => Err(e),
        Ok(b) => if !has_feed(st.feeds, f.feed_id) {
            Err(Error::NotFound)
        } else if parsed_kind(b@) is None {
            Err(Error::UnrecognizedFeedFormat)
        } else if st.next_entry_id + fresh_for(st, f.feed_id, b@).len() > i64::MAX {
            Err(Error::StorageError)
        } else {
            Ok(fresh_for(st, f.feed_id, b@).len() as usize)
        },
    }
}

/// The store after refreshing one feed: on success its new entries are
/// appended and its fetch time set to `now`; on failure nothing changes.
pub open spec fn step(st: StoreState, f: FetchOutcome, now: i64) -> StoreState {
    match step_result(st, f) {
        Ok(n) => StoreState {
            feeds: touched(st.feeds, f.feed_id, now),
            entries: st.entries + stored_entries(
                fresh_for(st, f.feed_id, f.body->Ok_0@),
                st.next_entry_id,
                f.feed_id,
                now,
            ),
            next_feed_id: st.next_feed_id,
            next_entry_id: st.next_entry_id + n,
        },
        Err(_) => st,
    }
}

/// The store after refreshing the feeds of `fs` one after another.
pub open spec fn applied(st: StoreState, fs: Seq<FetchOutcome>, now: i64) -> StoreState
    decreases fs.len(),
{
    if fs.len() == 0 {
        st
    } else {
        step(applied(st, fs.drop_last(), now), fs.last(), now)
    }
}

/// Refreshing a feed a second time from the same document, every entry of
/// which has a link, succeeds and stores nothing more.
pub proof fn lemma_refresh_twice_stores_nothing(st: StoreState, f: FetchOutcome, now: i64)
    requires
        f.body is Ok,
        step_result(st, f) is Ok,
        forall|i: int|
            0 <= i < parsed_entries(f.body->Ok_0@).len() ==> (#[trigger] parsed_entries(
                f.body->Ok_0@,
            )[i]).link is Some,
    ensures
        step_result(step(st, f, now), f) == Ok::<usize, Error>(0),
        step(step(st, f, now), f, now).entries == step(st, f, now).entries,
{
    let b = f.body->Ok_0@;
    let st2 = step(st, f, now);
    crate::sync::lemma_refresh_idempotent(st.entries, f.feed_id, parsed_entries(b), st.next_entry_id, now);
    lemma_touched_keeps_feeds(st.feeds, f.feed_id, now, f.feed_id);
    assert(fresh_for(st2, f.feed_id, b).len() == 0);
    assert(st2.entries + stored_entries(fresh_for(st2, f.feed_id, b), st2.next_entry_id, f.feed_id, now) =~= st2.entries);
}

/// The rows of feed `f` among `es`, in order.
pub open spec fn feed_rows(es: Seq<Entry>, f: FeedId) -> Seq<Entry>
    decreases es.len(),
{
    if es.len() == 0 {
        Seq::empty()
    } else {
        let rest = feed_rows(es.drop_last(), f);
        if es.last().feed_id == f {
            rest.push(es.last())
        } else {
            rest
        }
    }
}

proof fn lemma_feed_rows_append(a: Seq<Entry>, b: Seq<Entry>, f: FeedId)
    ensures
        feed_rows(a + b, f) == feed_rows(a, f) + feed_rows(b, f),
    decreases b.len(),
{
    if b.len() == 0 {
        assert(a + b =~= a);
        assert(feed_rows(a, f) + feed_rows(b, f) =~= feed_rows(a, f));
    } else {
        lemma_feed_rows_append(a, b.drop_last(), f);
        assert((a + b).drop_last() =~= a + b.drop_last());
        assert((a + b).last() == b.last());
        if b.last().feed_id == f {
            assert(feed_rows(a, f) + feed_rows(b.drop_last(), f).push(b.last()) =~= (feed_rows(
                a,
                f,
            ) + feed_rows(b.drop_last(), f)).push(b.last()));
        }
    }
}

proof fn lemma_feed_rows_stored(
    rs: Seq<crate::rss::RemoteEntry>,
    first: int,
    g: FeedId,
    now: i64,
    f: FeedId,
)
    ensures
        feed_rows(stored_entries(rs, first, g, now), f) == if f == g {
            stored_entries(rs, first, g, now)
        } else {
            Seq::<Entry>::empty()
        },
    decreases rs.len(),
{
    let st = stored_entries(rs, first, g, now);
    if rs.len() > 0 {
        lemma_feed_rows_stored(rs.drop_last(), first, g, now, f);
        assert(st.drop_last() =~= stored_entries(rs.drop_last(), first, g, now));
        if f == g {
            assert(stored_entries(rs.drop_last(), first, g, now).push(st.last()) =~= st);
        }
    } else {
        assert(st =~= Seq::<Entry>::empty());
    }
}

proof fn lemma_links_by_rows(es: Seq<Entry>, f: FeedId)
    ensures
        feed_links(es, f) == feed_links(feed_rows(es, f), f),
    decreases es.len(),
{
    if es.len() > 0 {
        let p = es.drop_last();
        lemma_links_by_rows(p, f);
        let rows = feed_rows(es, f);
        let prows = feed_rows(p, f);
        assert forall|l: Seq<char>|
            feed_links(es, f).contains(l) == feed_links(rows, f).contains(l) by {
            let a = crate::store::has_link(es, f, crate::modes::ReadMode::All, l);
            let b = crate::store::has_link(rows, f, crate::modes::ReadMode::All, l);
            if a {
                let k = choose|k: int|
                    crate::store::listed_at(es, f, crate::modes::ReadMode::All, k) && (
                    #[trigger] es[k].link) is Some && es[k].link->0@ == l;
                if k < p.len() {
                    assert(p[k] == es[k]);
                    assert(crate::store::listed_at(p, f, crate::modes::ReadMode::All, k));
                    assert(feed_links(p, f).contains(l));
                    assert(feed_links(prows, f).contains(l));
                    let q = choose|q: int|
                        crate::store::listed_at(prows, f, crate::modes::ReadMode::All, q) && (
                        #[trigger] prows[q].link) is Some && prows[q].link->0@ == l;
                    assert(rows[q] == prows[q]);
                    assert(crate::store::listed_at(rows, f, crate::modes::ReadMode::All, q));
                } else {
                    assert(rows == prows.push(es.last()));
                    assert(rows[prows.len() as int] == es.last());
                    assert(crate::store::listed_at(
                        rows,
                        f,
                        crate::modes::ReadMode::All,
                        prows.len() as int,
                    ));
                }
            }
            if b {
                let q = choose|q: int|
                    crate::store::listed_at(rows, f, crate::modes::ReadMode::All, q) && (
                    #[trigger] rows[q].link) is Some && rows[q].link->0@ == l;
                if q < prows.len() {
                    assert(rows[q] == prows[q]);
                    assert(crate::store::listed_at(prows, f, crate::modes::ReadMode::All, q));
                    assert(feed_links(prows, f).contains(l));
                    assert(feed_links(p, f).contains(l));
                    let k = choose|k: int|
                        crate::store::listed_at(p, f, crate::modes::ReadMode::All, k) && (
                        #[trigger] p[k].link) is Some && p[k].link->0@ == l;
                    assert(es[k] == p[k]);
                    assert(crate::store::listed_at(es, f, crate::modes::ReadMode::All, k));
                } else {
                    assert(rows[q] == es.last());
                    assert(crate::store::listed_at(
                        es,
                        f,
                        crate::modes::ReadMode::All,
                        es.len() - 1,
                    ));
                }
            }
        }
        assert(feed_links(es, f) =~= feed_links(rows, f));
    } else {
        assert(feed_links(es, f) =~= feed_links(feed_rows(es, f), f));
    }
}

/// Whether no two outcomes of a batch are for the same feed.
pub open spec fn distinct_feeds(fs: Seq<FetchOutcome>) -> bool {
    forall|a: int, b: int| 0 <= a < b < fs.len() ==> fs[a].feed_id != fs[b].feed_id
}

proof fn lemma_step_rows(st: StoreState, f: FetchOutcome, now: i64, id: FeedId)
    ensures
        id != f.feed_id || step_result(st, f) is Err ==> feed_rows(step(st, f, now).entries, id)
            == feed_rows(st.entries, id),
        id == f.feed_id && step_result(st, f) is Ok ==> feed_rows(step(st, f, now).entries, id)
            == feed_rows(st.entries, id) + stored_entries(
            fresh_for(st, id, f.body->Ok_0@),
            st.next_entry_id,
            id,
            now,
        ),
{
    if step_result(st, f) is Ok {
        let added = stored_entries(fresh_for(st, f.feed_id, f.body->Ok_0@), st.next_entry_id, f.feed_id, now);
        lemma_feed_rows_append(st.entries, added, id);
        lemma_feed_rows_stored(fresh_for(st, f.feed_id, f.body->Ok_0@), st.next_entry_id, f.feed_id, now, id);
        if id != f.feed_id {
            assert(feed_rows(st.entries, id) + Seq::<Entry>::empty() =~= feed_rows(st.entries, id));
        }
    }
}

proof fn lemma_applied_keeps_rows(st: StoreState, fs: Seq<FetchOutcome>, now: i64, id: FeedId)
    requires
        forall|i: int| 0 <= i < fs.len() ==> (#[trigger] fs[i]).feed_id != id,
    ensures
        feed_rows(applied(st, fs, now).entries, id) == feed_rows(st.entries, id),
    decreases fs.len(),
{
    if fs.len() > 0 {
        let p = fs.drop_last();
        assert forall|i: int| 0 <= i < p.len() implies (#[trigger] p[i]).feed_id != id by {
            assert(p[i] == fs[i]);
        }
        lemma_applied_keeps_rows(st, p, now, id);
        assert(fs.last() == fs[fs.len() - 1]);
        lemma_step_rows(applied(st, p, now), fs.last(), now, id);
    }
}

proof fn lemma_applied_split(st: StoreState, fs: Seq<FetchOutcome>, now: i64, j: int)
    requires
        0 <= j <= fs.len(),
    ensures
        applied(st, fs, now) == applied(applied(st, fs.subrange(0, j), now), fs.subrange(j, fs.len() as int), now),
    decreases fs.len() - j,
{
    if j < fs.len() {
        lemma_applied_split(st, fs, now, j + 1);
        let a = fs.subrange(0, j);
        let a1 = fs.subrange(0, j + 1);
        assert(a1.drop_last() =~= a);
        assert(a1.last() == fs[j]);
        let mid = applied(st, a, now);
        lemma_applied_prepend(mid, fs[j], fs.subrange(j + 1, fs.len() as int), now);
        assert(seq![fs[j]] + fs.subrange(j + 1, fs.len() as int) =~= fs.subrange(j, fs.len() as int));
    } else {
        assert(fs.subrange(0, j) =~= fs);
        assert(fs.subrange(j, fs.len() as int) =~= Seq::<FetchOutcome>::empty());
    }
}

proof fn lemma_applied_prepend(st: StoreState, f: FetchOutcome, rest: Seq<FetchOutcome>, now: i64)
    ensures
        applied(st, seq![f] + rest, now) == applied(step(st, f, now), rest, now),
    decreases rest.len(),
{
    let all = seq![f] + rest;
    if rest.len() == 0 {
        assert(all =~= seq![f]);
        assert(all.drop_last() =~= Seq::<FetchOutcome>::empty());
        assert(all.last() == f);
        assert(applied(st, all.drop_last(), now) == st);
        assert(applied(st, all, now) == step(st, f, now));
        assert(applied(step(st, f, now), rest, now) == step(st, f, now));
    } else {
        lemma_applied_prepend(st, f, rest.drop_last(), now);
        assert(all.drop_last() =~= seq![f] + rest.drop_last());
        assert(all.last() == rest.last());
        assert(applied(st, all, now) == step(applied(st, all.drop_last(), now), all.last(), now));
        assert(applied(step(st, f, now), rest, now) == step(
            applied(step(st, f, now), rest.drop_last(), now),
            rest.last(),
            now,
        ));
    }
}

/// Whether every stored feed with id `id` was last fetched at `now`.
pub open spec fn fetched_at(feeds: Seq<crate::rss::Feed>, id: FeedId, now: i64) -> bool {
    forall|k: int| 0 <= k < feeds.len() && (#[trigger] feeds[k]).id == id ==> feeds[k].refreshed_at
        == Some(now)
}

proof fn lemma_applied_keeps_fetched(st: StoreState, fs: Seq<FetchOutcome>, now: i64, id: FeedId)
    requires
        fetched_at(st.feeds, id, now),
    ensures
        fetched_at(applied(st, fs, now).feeds, id, now),
    decreases fs.len(),
{
    if fs.len() > 0 {
        lemma_applied_keeps_fetched(st, fs.drop_last(), now, id);
        let m = applied(st, fs.drop_last(), now);
        let n = step(m, fs.last(), now);
        assert forall|k: int| 0 <= k < n.feeds.len() && (#[trigger] n.feeds[k]).id == id implies n.feeds[k].refreshed_at == Some(now) by {
            if step_result(m, fs.last()) is Ok {
                assert(m.feeds[k].id == id);
            }
        }
    }
}

/// In a batch with one outcome per feed, a feed whose refresh succeeded ends
/// with its fetch time set to `now`.
pub proof fn lemma_batch_sets_fetch_time(st: StoreState, fs: Seq<FetchOutcome>, now: i64, j: int)
    requires
        0 <= j < fs.len(),
        step_result(applied(st, fs.subrange(0, j), now), fs[j]) is Ok,
    ensures
        fetched_at(applied(st, fs, now).feeds, fs[j].feed_id, now),
{
    let id = fs[j].feed_id;
    let mid = applied(st, fs.subrange(0, j), now);
    let after = step(mid, fs[j], now);
    assert(fetched_at(after.feeds, id, now));
    lemma_applied_split(st, fs, now, j + 1);
    let a1 = fs.subrange(0, j + 1);
    assert(a1.drop_last() =~= fs.subrange(0, j));
    assert(a1.last() == fs[j]);
    lemma_applied_keeps_fetched(after, fs.subrange(j + 1, fs.len() as int), now, id);
}

/// In a batch with one outcome per feed, each feed ends with its own rows
/// kept and, when its refresh succeeded, the entries of its document that
/// were new against its stored links appended; a failed feed's rows stay
/// as they were. Other feeds of the batch do not change what is new for it.
pub proof fn lemma_batch_per_feed(st: StoreState, fs: Seq<FetchOutcome>, now: i64, j: int)
    requires
        distinct_feeds(fs),
        0 <= j < fs.len(),
    ensures
        ({
            let id = fs[j].feed_id;
            let res = step_result(applied(st, fs.subrange(0, j), now), fs[j]);
            let rows = feed_rows(applied(st, fs, now).entries, id);
            &&& res is Err ==> rows == feed_rows(st.entries, id)
            &&& res is Ok ==> exists|first: int|
                rows == feed_rows(st.entries, id) + stored_entries(
                    fresh_for(st, id, fs[j].body->Ok_0@),
                    first,
                    id,
                    now,
                )
        }),
{
    let id = fs[j].feed_id;
    let pre = fs.subrange(0, j);
    let post = fs.subrange(j + 1, fs.len() as int);
    let mid = applied(st, pre, now);
    assert forall|i: int| 0 <= i < pre.len() implies (#[trigger] pre[i]).feed_id != id by {
        assert(pre[i] == fs[i]);
    }
    assert forall|i: int| 0 <= i < post.len() implies (#[trigger] post[i]).feed_id != id by {
        assert(post[i] == fs[j + 1 + i]);
    }
    lemma_applied_keeps_rows(st, pre, now, id);
    lemma_applied_split(st, fs, now, j + 1);
    let a1 = fs.subrange(0, j + 1);
    assert(a1.drop_last() =~= pre);
    assert(a1.last() == fs[j]);
    let after = step(mid, fs[j], now);
    lemma_applied_keeps_rows(after, post, now, id);
    lemma_step_rows(mid, fs[j], now, id);
    if step_result(mid, fs[j]) is Ok {
        lemma_links_by_rows(mid.entries, id);
        lemma_links_by_rows(st.entries, id);
        assert(fresh_for(mid, id, fs[j].body->Ok_0@) == fresh_for(st, id, fs[j].body->Ok_0@));
        assert(feed_rows(applied(st, fs, now).entries, id) == feed_rows(st.entries, id)
            + stored_entries(fresh_for(st, id, fs[j].body->Ok_0@), mid.next_entry_id, id, now));
    }
}

/// The total number of entries that the successful refreshes stored.
pub open spec fn inserted_total(rs: Seq<RefreshResult>) -> int
    decreases rs.len(),
{
    if rs.len() == 0 {
        0
    } else {
        inserted_total(rs.drop_last()) + match rs.last().result {
            Ok(n) => n as int,
            Err(_) => 0,
        }
    }
}

/// How many entries the fetched documents that parse hold together.
pub open spec fn parsed_total(fs: Seq<FetchOutcome>) -> int
    decreases fs.len(),
{
    if fs.len() == 0 {
        0
    } else {
        parsed_total(fs.drop_last()) + match fs.last().body {
            Ok(b) => crate::sync::parsed_entries(b@).len() as int,
            Err(_) => 0,
        }
    }
}

proof fn lemma_inserted_total_nonneg(rs: Seq<RefreshResult>)
    ensures
        inserted_total(rs) >= 0,
    decreases rs.len(),
{
    if rs.len() > 0 {
        lemma_inserted_total_nonneg(rs.drop_last());
    }
}

proof fn lemma_touched_keeps_feeds(feeds: Seq<crate::rss::Feed>, f: FeedId, now: i64, id: FeedId)
    ensures
        has_feed(touched(feeds, f, now), id) == has_feed(feeds, id),
{
    let t = touched(feeds, f, now);
    if has_feed(feeds, id) {
        let k = choose|k: int| 0 <= k < feeds.len() && feeds[k].id == id;
        assert(t[k].id == id);
    }
    if has_feed(t, id) {
        let k = choose|k: int| 0 <= k < t.len() && t[k].id == id;
        assert(feeds[k].id == id);
    }
}

/// Applies each fetched document to its feed in turn. A feed whose fetch or
/// refresh failed has its error in its result, and the other feeds are
/// refreshed all the same.
pub fn refresh_feeds(store: &mut FeedStore, fetched: &Vec<FetchOutcome>, now: i64) -> (r: Vec<
    RefreshResult,
>)
    requires
        old(store).wf(),
    ensures
        final(store).wf(),
        r@.len() == fetched@.len(),
        forall|i: int|
            0 <= i < r@.len() ==> {
                let f = #[trigger] fetched@[i];
                &&& r@[i].feed_id == f.feed_id
                &&& f.body is Err ==> r@[i].result == Err::<usize, Error>(f.body->Err_0)
                &&& f.body is Ok && has_feed(old(store).feeds@, f.feed_id)
                    && crate::sync::parsed_kind(f.body->Ok_0@) is Some ==> r@[i].result is Ok
                    || r@[i].result == Err::<usize, Error>(Error::StorageError)
                &&& f.body is Ok && !has_feed(old(store).feeds@, f.feed_id) ==> r@[i].result
                    == Err::<usize, Error>(Error::NotFound)
                &&& f.body is Ok && has_feed(old(store).feeds@, f.feed_id)
                    && crate::sync::parsed_kind(f.body->Ok_0@) is None ==> r@[i].result
                    == Err::<usize, Error>(Error::UnrecognizedFeedFormat)
            },
        final(store).entries@.len() == old(store).entries@.len() + inserted_total(r@),
        final(store).entries@.subrange(0, old(store).entries@.len() as int)
            == old(store).entries@,
        forall|id: FeedId| has_feed(final(store).feeds@, id) == has_feed(old(store).feeds@, id),
        state_of(*final(store)) == applied(state_of(*old(store)), fetched@, now),
        forall|i: int|
            0 <= i < r@.len() ==> (#[trigger] r@[i]).result == step_result(
                applied(state_of(*old(store)), fetched@.subrange(0, i), now),
                fetched@[i],
            ),
        old(store).next_entry_id + parsed_total(fetched@) <= i64::MAX ==> forall|i: int|
            0 <= i < r@.len() && fetched@[i].body is Ok ==> #[trigger] r@[i].result != Err::<
                usize,
                Error,
            >(Error::StorageError),
{
    let ghost old_store = *store;
    let mut results: Vec<RefreshResult> = Vec::new();
    let mut i: usize = 0;
    while i < fetched.len()
        invariant
            store.wf(),
            i <= fetched@.len(),
            results@.len() == i,
            forall|id: FeedId| has_feed(store.feeds@, id) == has_feed(old_store.feeds@, id),
            store.entries@.len() == old_store.entries@.len() + inserted_total(results@),
            state_of(*store) == applied(state_of(old_store), fetched@.subrange(0, i as int), now),
            forall|j: int|
                0 <= j < i ==> (#[trigger] results@[j]).result == step_result(
                    applied(state_of(old_store), fetched@.subrange(0, j), now),
                    fetched@[j],
                ),
            store.next_entry_id <= old_store.next_entry_id + parsed_total(
                fetched@.subrange(0, i as int),
            ),
            old_store.next_entry_id + parsed_total(fetched@) <= i64::MAX ==> forall|j: int|
                0 <= j < i && fetched@[j].body is Ok ==> #[trigger] results@[j].result != Err::<
                    usize,
                    Error,
                >(Error::StorageError),
            store.entries@.subrange(0, old_store.entries@.len() as int) == old_store.entries@,
            forall|j: int|
                0 <= j < i ==> {
                    let f = #[trigger] fetched@[j];
                    &&& results@[j].feed_id == f.feed_id
                    &&& f.body is Err ==> results@[j].result == Err::<usize, Error>(f.body->Err_0)
                    &&& f.body is Ok && has_feed(old_store.feeds@, f.feed_id)
                        && crate::sync::parsed_kind(f.body->Ok_0@) is Some
                        ==> results@[j].result is Ok || results@[j].result == Err::<usize, Error>(
                        Error::StorageError,
                    )
                    &&& f.body is Ok && !has_feed(old_store.feeds@, f.feed_id)
                        ==> results@[j].result == Err::<usize, Error>(Error::NotFound)
                    &&& f.body is Ok && has_feed(old_store.feeds@, f.feed_id)
                        && crate::sync::parsed_kind(f.body->Ok_0@) is None
                        ==> results@[j].result == Err::<usize, Error>(
                        Error::UnrecognizedFeedFormat,
                    )
                },
        decreases fetched@.len() - i,
    {
        let f = &fetched[i];
        let ghost before = *store;
        proof {
            lemma_inserted_total_nonneg(results@);
            assert(fetched@.subrange(0, i + 1).drop_last() =~= fetched@.subrange(0, i as int));
            lemma_parsed_total_prefix(fetched@, i + 1);
            if f.body is Ok {
                let b = f.body->Ok_0;
                crate::sync::lemma_fresh_entries_len(
                    crate::sync::parsed_entries(b@),
                    crate::sync::feed_links(store.entries@, f.feed_id),
                );
            }
        }
        let result = match &f.body {
            Err(e) => Err(e.duplicate()),
            Ok(body) => refresh_feed(store, f.feed_id, body.as_str(), now),
        };
        proof {
            if result is Ok {
                let b = f.body->Ok_0;
                assert forall|id: FeedId| has_feed(store.feeds@, id) == has_feed(
                    old_store.feeds@,
                    id,
                ) by {
                    lemma_touched_keeps_feeds(before.feeds@, f.feed_id, now, id);
                }
                assert(store.entries@.subrange(0, old_store.entries@.len() as int)
                    =~= before.entries@.subrange(0, old_store.entries@.len() as int));
            }
        }
        let ghost prev = results@;
        proof {
            let pre = fetched@.subrange(0, i as int);
            let st = applied(state_of(old_store), pre, now);
            assert(st == state_of(before));
            assert(fetched@.subrange(0, i + 1).drop_last() =~= pre);
            assert(fetched@.subrange(0, i + 1).last() == fetched@[i as int]);
            assert(result == step_result(st, fetched@[i as int]));
            assert(state_of(*store) =~= step(st, fetched@[i as int], now));
        }
        results.push(RefreshResult { feed_id: f.feed_id, result });
        assert(results@.drop_last() == prev);
        proof {
            lemma_inserted_total_nonneg(results@);
        }
        i = i + 1;
    }
    assert(fetched@.subrange(0, fetched@.len() as int) =~= fetched@);
    results
}

proof fn lemma_parsed_total_nonneg(fs: Seq<FetchOutcome>)
    ensures
        parsed_total(fs) >= 0,
    decreases fs.len(),
{
    if fs.len() > 0 {
        lemma_parsed_total_nonneg(fs.drop_last());
    }
}

proof fn lemma_parsed_total_prefix(fs: Seq<FetchOutcome>, k: int)
    requires
        0 <= k <= fs.len(),
    ensures
        parsed_total(fs.subrange(0, k)) <= parsed_total(fs),
    decreases fs.len() - k,
{
    if k < fs.len() {
        lemma_parsed_total_prefix(fs, k + 1);
        assert(fs.subrange(0, k + 1).drop_last() =~= fs.subrange(0, k));
        let b = fs[k].body;
        if b is Ok {
            assert(crate::sync::parsed_entries(b->Ok_0@).len() >= 0);
        }
    } else {
        assert(fs.subrange(0, k) =~= fs);
    }
}

/// The outcome of a batch refresh: how many feeds were tried, how many were
/// refreshed, and the error of each of the others, in order.
pub struct RefreshSummary {
    pub attempted: usize,
    pub succeeded: usize,
    pub failures: Vec<FeedFailure>,
}

pub struct FeedFailure {
    pub feed_id: FeedId,
    pub error: Error,
}

pub open spec fn ok_count(rs: Seq<RefreshResult>) -> nat
    decreases rs.len(),
{
    if rs.len() == 0 {
        0
    } else {
        ok_count(rs.drop_last()) + if rs.last().result is Ok {
            1nat
        } else {
            0nat
        }
    }
}

pub open spec fn failures_of(rs: Seq<RefreshResult>) -> Seq<FeedFailure>
    decreases rs.len(),
{
    if rs.len() == 0 {
        Seq::empty()
    } else {
        let rest = failures_of(rs.drop_last());
        match rs.last().result {
            Ok(_) => rest,
            Err(e) => rest.push(FeedFailure { feed_id: rs.last().feed_id, error: e }),
        }
    }
}

proof fn lemma_ok_count_bound(rs: Seq<RefreshResult>)
    ensures
        ok_count(rs) <= rs.len(),
    decreases rs.len(),
{
    if rs.len() > 0 {
        lemma_ok_count_bound(rs.drop_last());
    }
}

/// Sums up the results of a batch refresh.
pub fn summarize(results: &Vec<RefreshResult>) -> (r: RefreshSummary)
    ensures
        r.attempted == results@.len(),
        r.succeeded == ok_count(results@),
        r.failures@ == failures_of(results@),
{
    let mut succeeded: usize = 0;
    let mut failures: Vec<FeedFailure> = Vec::new();
    let mut i: usize = 0;
    while i < results.len()
        invariant
            i <= results@.len(),
            succeeded == ok_count(results@.subrange(0, i as int)),
            failures@ == failures_of(results@.subrange(0, i as int)),
        decreases results@.len() - i,
    {
        proof {
            lemma_ok_count_bound(results@.subrange(0, i as int));
        }
        assert(results@.subrange(0, i + 1).drop_last() =~= results@.subrange(0, i as int));
        match &results[i].result {
            Ok(_) => {
                succeeded = succeeded + 1;
            },
            Err(e) => {
                failures.push(FeedFailure { feed_id: results[i].feed_id, error: e.duplicate() });
            },
        }
        i = i + 1;
    }
    assert(results@.subrange(0, results@.len() as int) =~= results@);
    RefreshSummary { attempted: results.len(), succeeded, failures }
}

/// When exactly one feed of a batch fails, the batch reports that one
/// failure, with its feed and error, and every other feed as refreshed.
pub proof fn lemma_one_failure_isolated(rs: Seq<RefreshResult>, k: int)
    requires
        0 <= k < rs.len(),
        rs[k].result is Err,
        forall|i: int| 0 <= i < rs.len() && i != k ==> (#[trigger] rs[i]).result is Ok,
    ensures
        ok_count(rs) == rs.len() - 1,
        failures_of(rs) == seq![FeedFailure { feed_id: rs[k].feed_id, error: rs[k].result->Err_0 }],
    decreases rs.len(),
{
    if k < rs.len() - 1 {
        let p = rs.drop_last();
        assert(p[k] == rs[k]);
        assert forall|i: int| 0 <= i < p.len() && i != k implies (#[trigger] p[i]).result is Ok by {
            assert(p[i] == rs[i]);
        }
        lemma_one_failure_isolated(p, k);
        assert(rs.last() == rs[rs.len() - 1]);
    } else {
        lemma_all_ok(rs.drop_last());
    }
}

proof fn lemma_all_ok(rs: Seq<RefreshResult>)
    requires
        forall|i: int| 0 <= i < rs.len() ==> (#[trigger] rs[i]).result is Ok,
    ensures
        ok_count(rs) == rs.len(),
        failures_of(rs) == Seq::<FeedFailure>::empty(),
    decreases rs.len(),
{
    if rs.len() > 0 {
        let p = rs.drop_last();
        assert forall|i: int| 0 <= i < p.len() implies (#[trigger] p[i]).result is Ok by {
            assert(p[i] == rs[i]);
        }
        lemma_all_ok(p);
        assert(rs.last() == rs[rs.len() - 1]);
    }
}

} // verus!
