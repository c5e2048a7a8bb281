//! The reader's session state and the actions that move through it: the
//! feed list, the entry list of the highlighted feed, and the open entry.
use crate::error::Error;
use crate::modes::{Mode, ReadMode, Selected};
use crate::rss::{EntryMeta, Feed, FeedId};
use crate::store::{
    get_entries_metas, get_entry_content, get_entry_meta, get_feed, get_feed_ids, get_feeds,
    has_entry, has_feed, listed, listed_at, meta_of, sorted_feeds, sorted_for_listing,
    with_read_at, FeedStore,
};
use crate::util::{next_index, previous_index, StatefulList};
use vstd::prelude::*;
use vstd::std_specs::iter::IteratorSpec;
use vstd::string::*;

verus! {

/// What the reader's loop waits for: a key, or a tick to redraw.
pub enum Event<I> {
    Input(I),
    Tick,
}

/// What an entry shows when it has neither content nor description.
pub const NO_CONTENT: &'static str = "No content or description tag provided.";

/// Relies on `String::push`: appends `c`.
#[verifier::external_body]
fn push_char(s: &mut String, c: char)
    ensures
        final(s)@ == old(s)@.push(c),
{
    s.push(c)
}

/// How many times `c` occurs in `s`.
pub open spec fn count_char(s: Seq<char>, c: char) -> nat
    decreases s.len(),
{
    if s.len() == 0 {
        0
    } else {
        count_char(s.drop_last(), c) + if s.last() == c {
            1nat
        } else {
            0nat
        }
    }
}

/// How many line breaks `text` holds.
pub fn count_lines(text: &str) -> (r: usize)
    ensures
        r == count_char(text@, '\n'),
{
    broadcast use vstd::string::group_string_axioms;

    let len = text.unicode_len();
    let mut it = text.chars();
    let ghost total = text@;
    let ghost mut k: int = 0;
    let mut n: usize = 0;
    loop
        invariant
            total == text@,
            0 <= k <= total.len(),
            it.remaining() == total.subrange(k, total.len() as int),
            n == count_char(total.subrange(0, k), '\n'),
            n <= k,
            total.len() == len,
        ensures
            n == count_char(total, '\n'),
        decreases total.len() - k,
    {
        let ghost before = it.remaining();
        match it.next() {
            Some(c) => {
                assert(c == total[k]);
                assert(total.subrange(0, k + 1).drop_last() =~= total.subrange(0, k));
                assert(before.drop_first() =~= total.subrange(k + 1, total.len() as int));
                if c == '\n' {
                    n = n + 1;
                }
                proof {
                    k = k + 1;
                }
            },
            None => {
                assert(total.subrange(0, k) =~= total);
                break ;
            },
        }
    }
    n
}

/// The entry list that the reader shows for `feed` under `mode`.
pub open spec fn shows_entries(
    items: Seq<EntryMeta>,
    store: FeedStore,
    feed: Option<Feed>,
    mode: ReadMode,
) -> bool {
    match feed {
        Some(f) => sorted_for_listing(items) && forall|m: EntryMeta|
            items.contains(m) <==> listed(store.entries@, f.id, mode, m),
        None => items.len() == 0,
    }
}

/// The highlight of an entry list of `len` items reloaded with `pos` as the
/// remembered position: that position, else the last item.
pub open spec fn reloaded_highlight(pos: usize, len: nat) -> Option<usize> {
    if pos < len {
        Some(pos)
    } else if len > 0 {
        Some((len - 1) as usize)
    } else {
        None
    }
}

/// The HTML an entry body renders from: its content, else its description,
/// else a placeholder.
pub open spec fn body_html(content: Option<String>, description: Option<String>) -> Seq<char> {
    match content {
        Some(c) => c@,
        None => match description {
            Some(d) => d@,
            None => NO_CONTENT@,
        },
    }
}

/// Every entry an entry list shows is stored.
proof fn lemma_shown_entry_stored(
    items: Seq<EntryMeta>,
    store: FeedStore,
    feed: Option<Feed>,
    mode: ReadMode,
    i: int,
)
    requires
        shows_entries(items, store, feed, mode),
        0 <= i < items.len(),
    ensures
        has_entry(store.entries@, items[i].id),
{
    let f = feed->0;
    assert(items.contains(items[i]));
    let k = choose|k: int|
        listed_at(store.entries@, f.id, mode, k) && meta_of(store.entries@[k]) == items[i];
    assert(store.entries@[k].id == items[i].id);
}

/// Whether every feed of a list is stored.
pub open spec fn all_stored(items: Seq<Feed>, store: FeedStore) -> bool {
    forall|i: int| 0 <= i < items.len() ==> store.feeds@.contains(#[trigger] items[i])
}

/// The remembered entry position after a reload to `len` entries.
pub open spec fn clamped_position(pos: usize, len: nat) -> usize {
    if len == 0 {
        0
    } else if pos >= len {
        (len - 1) as usize
    } else {
        pos
    }
}

/// The width that entry bodies wrap at in a column of `column_width`.
pub open spec fn line_length(column_width: u16) -> usize {
    if column_width >= 5 {
        (column_width - 4) as usize
    } else {
        1
    }
}

pub struct AppImpl {
    pub current_feed: Option<Feed>,
    pub feeds: StatefulList<Feed>,
    pub current_entry_meta: Option<EntryMeta>,
    pub entries: StatefulList<EntryMeta>,
    pub entry_selection_position: usize,
    pub current_entry_text: String,
    pub entry_scroll_position: u16,
    pub entry_lines_len: usize,
    pub entry_lines_rendered_len: u16,
    pub entry_column_width: u16,
    pub should_quit: bool,
    pub selected: Selected,
    pub mode: Mode,
    pub read_mode: ReadMode,
    pub show_help: bool,
    pub error_flash: Vec<String>,
    pub feed_subscription_input: String,
    pub flash: Option<String>,
    /// The HTML of the entry just opened, waiting to be rendered.
    pub entry_html: Option<String>,
    /// The width that the waiting HTML is to be wrapped at.
    pub entry_wrap_width: usize,
}

fn copy_selected(s: &Selected) -> (r: Selected)
    ensures
        r == *s,
{
    match s {
        Selected::Feeds => Selected::Feeds,
        Selected::Entries => Selected::Entries,
        Selected::Entry(m) => Selected::Entry(m.duplicate()),
    }
}

impl AppImpl {
    /// Both highlights stay inside their lists.
    pub open spec fn wf(&self) -> bool {
        &&& self.feeds.state is Some ==> self.feeds.state->0 < self.feeds.items@.len()
        &&& self.entries.state is Some ==> self.entries.state->0 < self.entries.items@.len()
    }

    /// Whether opening goes ahead: an entry list is shown or an entry is
    /// open, the list is not empty, and an entry is current.
    pub open spec fn opens(&self) -> bool {
        !(self.selected is Feeds) && self.entries.items@.len() > 0 && self.current_entry_meta is Some
    }

    /// A session over `store`: the feed list, with the first feed highlighted
    /// and its unread entries loaded.
    pub fn new(store: &FeedStore) -> (r: Result<AppImpl, Error>)
        requires
            store.wf(),
        ensures
            r is Ok,
            r is Ok ==> {
                let a = r->Ok_0;
                &&& a.wf()
                &&& a.selected == Selected::Feeds
                &&& a.mode == Mode::Normal
                &&& a.read_mode == ReadMode::ShowUnread
                &&& sorted_feeds(a.feeds.items@)
                &&& a.feeds.items@.len() == store.feeds@.len()
                &&& forall|f: Feed| a.feeds.items@.contains(f) <==> store.feeds@.contains(f)
                &&& a.feeds.state == if a.feeds.items@.len() > 0 {
                    Some(0usize)
                } else {
                    None
                }
                &&& (a.current_feed is Some <==> a.feeds.items@.len() > 0)
                &&& a.current_feed is Some ==> a.current_feed->0.id == a.feeds.items@[0].id
                    && store.feeds@.contains(a.current_feed->0)
                &&& shows_entries(a.entries.items@, *store, a.current_feed, a.read_mode)
                &&& a.entries.state == if a.entries.items@.len() > 0 {
                    Some(0usize)
                } else {
                    None
                }
                &&& a.entry_selection_position == 0
                &&& a.current_entry_meta is None
                &&& a.entry_html is None
                &&& a.current_entry_text@.len() == 0
                &&& a.entry_scroll_position == 0
                &&& a.error_flash@.len() == 0
                &&& a.feed_subscription_input@.len() == 0
                &&& a.flash is None
            },
    {
        let mut app = AppImpl {
            current_feed: None,
            feeds: StatefulList::with_items(Vec::new()),
            current_entry_meta: None,
            entries: StatefulList::with_items(Vec::new()),
            entry_selection_position: 0,
            current_entry_text: String::new(),
            entry_scroll_position: 0,
            entry_lines_len: 0,
            entry_lines_rendered_len: 0,
            entry_column_width: 0,
            should_quit: false,
            selected: Selected::Feeds,
            mode: Mode::Normal,
            read_mode: ReadMode::ShowUnread,
            show_help: true,
            error_flash: Vec::new(),
            feed_subscription_input: String::new(),
            flash: None,
            entry_html: None,
            entry_wrap_width: 1,
        };
        app.update_feeds(store);
        assert forall|i: int| 0 <= i < app.feeds.items@.len() implies store.feeds@.contains(
            #[trigger] app.feeds.items@[i],
        ) by {
            assert(app.feeds.items@.contains(app.feeds.items@[i]));
        }
        app.update_current_feed_and_entries(store)?;
        Ok(app)
    }

    /// Reloads the feed list from the store; no feed is highlighted after.
    pub fn update_feeds(&mut self, store: &FeedStore)
        requires
            store.wf(),
            old(self).wf(),
        ensures
            *final(self) == (AppImpl { feeds: final(self).feeds, ..*old(self) }),
            final(self).wf(),
            sorted_feeds(final(self).feeds.items@),
            final(self).feeds.items@.len() == store.feeds@.len(),
            forall|f: Feed| final(self).feeds.items@.contains(f) <==> store.feeds@.contains(f),
            all_stored(final(self).feeds.items@, *store),
            final(self).feeds.state is None,
    {
        self.feeds = StatefulList::with_items(get_feeds(store));
        assert forall|i: int| 0 <= i < self.feeds.items@.len() implies store.feeds@.contains(
            #[trigger] self.feeds.items@[i],
        ) by {
            assert(self.feeds.items@.contains(self.feeds.items@[i]));
        }
    }

    /// Replaces the feed list.
    pub fn set_feeds(&mut self, feeds: Vec<Feed>)
        requires
            old(self).wf(),
        ensures
            *final(self) == (AppImpl { feeds: final(self).feeds, ..*old(self) }),
            final(self).wf(),
            final(self).feeds.items == feeds,
            final(self).feeds.state is None,
    {
        self.feeds = StatefulList::with_items(feeds);
    }

    /// Reloads the highlighted feed, highlighting the first if none is, and
    /// its entry list. Succeeds when every listed feed is stored.
    pub fn update_current_feed_and_entries(&mut self, store: &FeedStore) -> (r: Result<(), Error>)
        requires
            store.wf(),
            old(self).wf(),
        ensures
            all_stored(old(self).feeds.items@, *store) ==> r is Ok,
            *final(self) == (AppImpl {
                current_feed: final(self).current_feed,
                feeds: final(self).feeds,
                entries: final(self).entries,
                ..*old(self)
            }),
            final(self).wf(),
            final(self).feeds.items == old(self).feeds.items,
            final(self).feeds.state == if old(self).feeds.state is None
                && old(self).feeds.items@.len() > 0 {
                Some(0usize)
            } else {
                old(self).feeds.state
            },
            r is Ok ==> shows_entries(
                final(self).entries.items@,
                *store,
                final(self).current_feed,
                final(self).read_mode,
            ),
            r is Ok ==> (final(self).current_feed is Some <==> final(self).feeds.items@.len() > 0),
            r is Ok && final(self).current_feed is Some ==> final(self).feeds.state is Some
                && final(self).current_feed->0.id == final(self).feeds.items@[final(self).feeds.state->0 as int].id
                && store.feeds@.contains(final(self).current_feed->0),
            r is Ok ==> final(self).entries.state == reloaded_highlight(
                old(self).entry_selection_position,
                final(self).entries.items@.len(),
            ),
    {
        self.update_current_feed(store)?;
        self.update_current_entries(store);
        Ok(())
    }

    fn update_current_feed(&mut self, store: &FeedStore) -> (r: Result<(), Error>)
        requires
            store.wf(),
            old(self).wf(),
        ensures
            all_stored(old(self).feeds.items@, *store) ==> r is Ok,
            *final(self) == (AppImpl {
                current_feed: final(self).current_feed,
                feeds: final(self).feeds,
                ..*old(self)
            }),
            final(self).wf(),
            final(self).feeds.items == old(self).feeds.items,
            final(self).feeds.state == if old(self).feeds.state is None
                && old(self).feeds.items@.len() > 0 {
                Some(0usize)
            } else {
                old(self).feeds.state
            },
            r is Ok ==> (final(self).current_feed is Some <==> final(self).feeds.items@.len() > 0),
            r is Ok && final(self).current_feed is Some ==> final(self).feeds.state is Some
                && final(self).current_feed->0.id == final(self).feeds.items@[final(self).feeds.state->0 as int].id
                && store.feeds@.contains(final(self).current_feed->0),
    {
        if self.feeds.items.len() == 0 {
            self.current_feed = None;
            return Ok(());
        }
        let idx = match self.feeds.state {
            Some(idx) => idx,
            None => {
                self.feeds.reset();
                0
            },
        };
        let feed_id = self.feeds.items[idx].id;
        proof {
            if all_stored(old(self).feeds.items@, *store) {
                assert(store.feeds@.contains(self.feeds.items@[idx as int]));
                let k = choose|k: int|
                    0 <= k < store.feeds@.len() && store.feeds@[k] == self.feeds.items@[idx as int];
                assert(has_feed(store.feeds@, feed_id));
            }
        }
        let feed = get_feed(store, feed_id)?;
        self.current_feed = Some(feed);
        Ok(())
    }

    fn update_current_entries(&mut self, store: &FeedStore)
        requires
            store.wf(),
            old(self).wf(),
        ensures
            *final(self) == (AppImpl { entries: final(self).entries, ..*old(self) }),
            final(self).wf(),
            shows_entries(
                final(self).entries.items@,
                *store,
                final(self).current_feed,
                final(self).read_mode,
            ),
            final(self).entries.state == reloaded_highlight(
                old(self).entry_selection_position,
                final(self).entries.items@.len(),
            ),
    {
        let items = match &self.current_feed {
            Some(feed) => get_entries_metas(store, &self.read_mode, feed.id),
            None => Vec::new(),
        };
        self.entries = StatefulList::with_items(items);
        let len = self.entries.items.len();
        if self.entry_selection_position < len {
            self.entries.state = Some(self.entry_selection_position);
        } else if len > 0 {
            self.entries.state = Some(len - 1);
        } else {
            self.entries.state = None;
        }
    }

    fn update_entry_selection_position(&mut self)
        ensures
            *final(self) == (AppImpl {
                entry_selection_position: final(self).entry_selection_position,
                ..*old(self)
            }),
            final(self).entry_selection_position == clamped_position(
                old(self).entry_selection_position,
                old(self).entries.items@.len(),
            ),
    {
        if self.entries.items.len() == 0 {
            self.entry_selection_position = 0;
        } else if self.entry_selection_position > self.entries.items.len() - 1 {
            self.entry_selection_position = self.entries.items.len() - 1;
        }
    }

    /// Loads the highlighted entry's row as the current entry; succeeds when
    /// nothing is highlighted or the highlighted entry is stored.
    fn update_current_entry_meta(&mut self, store: &FeedStore) -> (r: Result<(), Error>)
        requires
            old(self).wf(),
        ensures
            *final(self) == (AppImpl {
                current_entry_meta: final(self).current_entry_meta,
                ..*old(self)
            }),
            final(self).wf(),
            r is Ok <==> (old(self).entries.state is None || has_entry(
                store.entries@,
                old(self).entries.items@[old(self).entries.state->0 as int].id,
            )),
            r is Err ==> *final(self) == *old(self),
            r is Ok && old(self).entries.state is Some ==> final(self).current_entry_meta is Some
                && final(self).current_entry_meta->0.id == old(self).entries.items@[old(self).entries.state->0 as int].id
                && exists|k: int|
                0 <= k < store.entries@.len() && meta_of(store.entries@[k]) == final(self).current_entry_meta->0,
            old(self).entries.state is None ==> *final(self) == *old(self),
    {
        if let Some(idx) = self.entries.state {
            let meta = get_entry_meta(store, self.entries.items[idx].id)?;
            self.current_entry_meta = Some(meta);
        }
        Ok(())
    }

    /// Scrolls the open entry up by a page, stopping at the top; does
    /// nothing when no entry is open.
    pub fn page_up(&mut self)
        ensures
            *final(self) == (AppImpl {
                entry_scroll_position: final(self).entry_scroll_position,
                ..*old(self)
            }),
            old(self).selected is Entry ==> final(self).entry_scroll_position == if old(self).entry_scroll_position >= old(self).entry_lines_rendered_len {
                (old(self).entry_scroll_position - old(self).entry_lines_rendered_len) as u16
            } else {
                0
            },
            !(old(self).selected is Entry) ==> *final(self) == *old(self),
    {
        if let Selected::Entry(_) = self.selected {
            self.entry_scroll_position = if self.entry_scroll_position
                >= self.entry_lines_rendered_len {
                self.entry_scroll_position - self.entry_lines_rendered_len
            } else {
                0
            };
        }
    }

    /// Scrolls the open entry down by a page, stopping at its last line; does
    /// nothing when no entry is open.
    pub fn page_down(&mut self)
        ensures
            *final(self) == (AppImpl {
                entry_scroll_position: final(self).entry_scroll_position,
                ..*old(self)
            }),
            old(self).selected is Entry ==> final(self).entry_scroll_position as int == {
                let end = if old(self).entry_lines_len <= u16::MAX {
                    old(self).entry_lines_len as int
                } else {
                    u16::MAX as int
                };
                let next = old(self).entry_scroll_position + old(self).entry_lines_rendered_len;
                if next >= end {
                    end
                } else {
                    next
                }
            },
            !(old(self).selected is Entry) ==> *final(self) == *old(self),
    {
        if let Selected::Entry(_) = self.selected {
            let end: u32 = if self.entry_lines_len <= u16::MAX as usize {
                self.entry_lines_len as u32
            } else {
                u16::MAX as u32
            };
            let next: u32 = self.entry_scroll_position as u32
                + self.entry_lines_rendered_len as u32;
            self.entry_scroll_position = if next >= end {
                end as u16
            } else {
                next as u16
            };
        }
    }

    /// Opens the highlighted entry: it becomes the open entry, and its body
    /// (content, else description, else a placeholder) waits in `entry_html`
    /// to be rendered at `entry_wrap_width` columns. Fails only when the
    /// highlighted entry is not stored.
    pub fn on_enter(&mut self, store: &FeedStore) -> (r: Result<(), Error>)
        requires
            old(self).wf(),
        ensures
            final(self).wf(),
            *final(self) == (AppImpl {
                selected: final(self).selected,
                entry_html: final(self).entry_html,
                entry_wrap_width: final(self).entry_wrap_width,
                ..*old(self)
            }),
            r is Err ==> *final(self) == *old(self) && r == Err::<(), Error>(Error::NotFound),
            !old(self).opens() ==> r is Ok && *final(self) == *old(self),
            old(self).opens() && old(self).entries.state is Some ==> (r is Ok <==> has_entry(
                store.entries@,
                old(self).entries.items@[old(self).entries.state->0 as int].id,
            )),
            old(self).opens() && old(self).entries.state is None ==> r is Ok
                && final(self).entry_html == old(self).entry_html
                && final(self).entry_wrap_width == old(self).entry_wrap_width,
            old(self).opens() && r is Ok ==> final(self).selected == Selected::Entry(
                old(self).current_entry_meta->0,
            ),
            old(self).opens() && old(self).entries.state is Some && r is Ok ==> {
                let id = old(self).entries.items@[old(self).entries.state->0 as int].id;
                &&& final(self).entry_wrap_width == line_length(old(self).entry_column_width)
                &&& final(self).entry_html is Some
                &&& exists|k: int|
                    0 <= k < store.entries@.len() && store.entries@[k].id == id
                        && final(self).entry_html->0@ == body_html(
                        store.entries@[k].content,
                        store.entries@[k].description,
                    )
            },
    {
        match self.selected {
            Selected::Feeds => Ok(()),
            _ => {
                if self.entries.items.len() > 0 {
                    if let Some(entry_meta) = &self.current_entry_meta {
                        let meta = entry_meta.duplicate();
                        if let Some(idx) = self.entries.state {
                            let entry = get_entry_content(store, self.entries.items[idx].id)?;
                            let width: usize = if self.entry_column_width >= 5 {
                                (self.entry_column_width - 4) as usize
                            } else {
                                1
                            };
                            let html = match &entry.content {
                                Some(c) => c.clone(),
                                None => match &entry.description {
                                    Some(d) => d.clone(),
                                    None => String::from_str(NO_CONTENT),
                                },
                            };
                            self.entry_html = Some(html);
                            self.entry_wrap_width = width;
                        }
                        self.selected = Selected::Entry(meta);
                    }
                }
                Ok(())
            },
        }
    }

    /// Takes the rendered body of the open entry and counts its lines; the
    /// waiting HTML is done with.
    pub fn set_entry_text(&mut self, text: String)
        ensures
            *final(self) == (AppImpl {
                current_entry_text: text,
                entry_lines_len: final(self).entry_lines_len,
                entry_html: None,
                ..*old(self)
            }),
            final(self).entry_lines_len == count_char(text@, '\n'),
    {
        self.entry_lines_len = count_lines(text.as_str());
        self.current_entry_text = text;
        self.entry_html = None;
    }

    pub fn toggle_help(&mut self)
        ensures
            *final(self) == (AppImpl { show_help: final(self).show_help, ..*old(self) }),
            final(self).show_help == !old(self).show_help,
    {
        self.show_help = !self.show_help;
    }

    pub fn clear_error_flash(&mut self)
        ensures
            *final(self) == (AppImpl { error_flash: final(self).error_flash, ..*old(self) }),
            final(self).error_flash@.len() == 0,
    {
        self.error_flash = Vec::new();
    }

    pub fn push_error_flash(&mut self, e: String)
        ensures
            *final(self) == (AppImpl { error_flash: final(self).error_flash, ..*old(self) }),
            final(self).error_flash@ == old(self).error_flash@.push(e),
    {
        self.error_flash.push(e);
    }

    pub fn error_flash_is_empty(&self) -> (r: bool)
        ensures
            r == (self.error_flash@.len() == 0),
    {
        self.error_flash.len() == 0
    }

    pub fn set_flash(&mut self, flash: String)
        ensures
            *final(self) == (AppImpl { flash: final(self).flash, ..*old(self) }),
            final(self).flash == Some(flash),
    {
        self.flash = Some(flash);
    }

    pub fn clear_flash(&mut self)
        ensures
            *final(self) == (AppImpl { flash: final(self).flash, ..*old(self) }),
            final(self).flash is None,
    {
        self.flash = None;
    }

    pub fn reset_feed_subscription_input(&mut self)
        ensures
            *final(self) == (AppImpl { feed_subscription_input: final(self).feed_subscription_input, ..*old(self) }),
            final(self).feed_subscription_input@.len() == 0,
    {
        self.feed_subscription_input = String::new();
    }

    pub fn push_feed_subscription_input(&mut self, input: char)
        ensures
            *final(self) == (AppImpl { feed_subscription_input: final(self).feed_subscription_input, ..*old(self) }),
            final(self).feed_subscription_input@ == old(self).feed_subscription_input@.push(input),
    {
        push_char(&mut self.feed_subscription_input, input);
    }

    /// Deletes the last character of the subscription input, if any.
    pub fn pop_feed_subscription_input(&mut self)
        ensures
            *final(self) == (AppImpl { feed_subscription_input: final(self).feed_subscription_input, ..*old(self) }),
            old(self).feed_subscription_input@.len() == 0 ==> final(self).feed_subscription_input@.len() == 0,
            old(self).feed_subscription_input@.len() > 0 ==> final(self).feed_subscription_input@
                == old(self).feed_subscription_input@.drop_last(),
    {
        let n = self.feed_subscription_input.as_str().unicode_len();
        if n > 0 {
            let kept = self.feed_subscription_input.as_str().substring_char(0, n - 1);
            let s = String::from_str(kept);
            assert(s@ =~= old(self).feed_subscription_input@.drop_last());
            self.feed_subscription_input = s;
        }
    }

    pub fn feed_subscription_input(&self) -> (r: String)
        ensures
            r@ == self.feed_subscription_input@,
    {
        self.feed_subscription_input.clone()
    }

    pub fn select_feeds(&mut self)
        ensures
            *final(self) == (AppImpl { selected: final(self).selected, ..*old(self) }),
            final(self).selected == Selected::Feeds,
            final(self).entries == old(self).entries,
            final(self).feeds == old(self).feeds,
    {
        self.selected = Selected::Feeds;
    }

    pub fn selected(&self) -> (r: Selected)
        ensures
            r == self.selected,
    {
        copy_selected(&self.selected)
    }

    pub fn mode(&self) -> (r: Mode)
        ensures
            r == self.mode,
    {
        self.mode
    }

    pub fn set_mode(&mut self, mode: Mode)
        ensures
            *final(self) == (AppImpl { mode: final(self).mode, ..*old(self) }),
            final(self).mode == mode,
            final(self).selected == old(self).selected,
    {
        self.mode = mode;
    }

    /// The id of the highlighted feed.
    pub fn selected_feed_id(&self) -> (r: FeedId)
        requires
            self.wf(),
            self.feeds.state is Some,
        ensures
            r == self.feeds.items@[self.feeds.state->0 as int].id,
    {
        let idx = self.feeds.state.unwrap();
        self.feeds.items[idx].id
    }

    /// The ids of all feeds, in feed list order.
    pub fn feed_ids(&self, store: &FeedStore) -> (r: Vec<FeedId>)
        requires
            store.wf(),
        ensures
            exists|fs: Seq<Feed>|
                {
                    &&& sorted_feeds(fs)
                    &&& fs.len() == store.feeds@.len()
                    &&& forall|f: Feed| fs.contains(f) <==> store.feeds@.contains(f)
                    &&& r@ == fs.map_values(|f: Feed| f.id)
                },
    {
        get_feed_ids(store)
    }

    /// The link of what is selected: the highlighted feed's site link, else
    /// its URL; the highlighted or open entry's link; or an empty string.
    pub fn get_current_link(&self) -> (r: String)
        ensures
            self.selected is Feeds ==> r@ == match self.current_feed {
                Some(f) => match f.link {
                    Some(l) => l@,
                    None => match f.feed_link {
                        Some(l) => l@,
                        None => Seq::empty(),
                    },
                },
                None => Seq::empty(),
            },
            self.selected is Entries ==> r@ == if self.entry_selection_position
                < self.entries.items@.len() {
                match self.entries.items@[self.entry_selection_position as int].link {
                    Some(l) => l@,
                    None => Seq::empty(),
                }
            } else {
                Seq::empty()
            },
            self.selected is Entry ==> r@ == match self.selected->Entry_0.link {
                Some(l) => l@,
                None => Seq::empty(),
            },
    {
        match &self.selected {
            Selected::Feeds => match &self.current_feed {
                Some(f) => match &f.link {
                    Some(l) => l.clone(),
                    None => match &f.feed_link {
                        Some(l) => l.clone(),
                        None => String::new(),
                    },
                },
                None => String::new(),
            },
            Selected::Entries => {
                if self.entry_selection_position < self.entries.items.len() {
                    match &self.entries.items[self.entry_selection_position].link {
                        Some(l) => l.clone(),
                        None => String::new(),
                    }
                } else {
                    String::new()
                }
            },
            Selected::Entry(e) => match &e.link {
                Some(l) => l.clone(),
                None => String::new(),
            },
        }
    }

    /// Goes back one level: from the entry list to the feed list, or from an
    /// open entry to the entry list; does nothing on the feed list.
    pub fn on_left(&mut self)
        requires
            old(self).wf(),
        ensures
            final(self).wf(),
            old(self).selected is Feeds ==> *final(self) == *old(self),
            old(self).selected is Entries ==> *final(self) == (AppImpl {
                selected: Selected::Feeds,
                entry_selection_position: 0,
                ..*old(self)
            }),
            old(self).selected is Entry ==> *final(self) == (AppImpl {
                selected: Selected::Entries,
                entry_scroll_position: 0,
                current_entry_text: final(self).current_entry_text,
                ..*old(self)
            }) && final(self).current_entry_text@.len() == 0,
    {
        match self.selected {
            Selected::Feeds => {},
            Selected::Entries => {
                self.entry_selection_position = 0;
                self.selected = Selected::Feeds;
            },
            Selected::Entry(_) => {
                self.entry_scroll_position = 0;
                self.current_entry_text = String::new();
                self.selected = Selected::Entries;
            },
        }
    }

    /// Moves up: the feed highlight (reloading the highlighted feed and its
    /// entries), the entry highlight (loading the current entry), or the
    /// open entry's scroll position, which stops at the top.
    pub fn on_up(&mut self, store: &FeedStore) -> (r: Result<(), Error>)
        requires
            store.wf(),
            old(self).wf(),
        ensures
            final(self).wf(),
            final(self).selected == old(self).selected,
            old(self).selected is Feeds ==> {
                &&& all_stored(old(self).feeds.items@, *store) ==> r is Ok
                &&& *final(self) == (AppImpl {
                    current_feed: final(self).current_feed,
                    feeds: final(self).feeds,
                    entries: final(self).entries,
                    ..*old(self)
                })
                &&& final(self).feeds.items == old(self).feeds.items
                &&& old(self).feeds.items@.len() > 0 ==> final(self).feeds.state == Some(
                    previous_index(old(self).feeds.state, old(self).feeds.items@.len()),
                )
                &&& r is Ok ==> shows_entries(
                    final(self).entries.items@,
                    *store,
                    final(self).current_feed,
                    final(self).read_mode,
                )
                &&& r is Ok ==> (final(self).current_feed is Some <==> old(self).feeds.items@.len() > 0)
                &&& r is Ok && final(self).current_feed is Some ==> final(self).current_feed->0.id
                    == final(self).feeds.items@[final(self).feeds.state->0 as int].id
            },
            old(self).selected is Entries && old(self).entries.items@.len() == 0 ==> r is Ok
                && *final(self) == *old(self),
            old(self).selected is Entries && old(self).entries.items@.len() > 0 ==> {
                let i = previous_index(old(self).entries.state, old(self).entries.items@.len());
                &&& *final(self) == (AppImpl {
                    entries: StatefulList { state: Some(i), items: old(self).entries.items },
                    entry_selection_position: i,
                    current_entry_meta: final(self).current_entry_meta,
                    ..*old(self)
                })
                &&& has_entry(store.entries@, old(self).entries.items@[i as int].id) <==> r is Ok
                &&& r is Ok ==> final(self).current_entry_meta is Some
                    && final(self).current_entry_meta->0.id == old(self).entries.items@[i as int].id
            },
            old(self).selected is Entry ==> r is Ok && *final(self) == (AppImpl {
                entry_scroll_position: if old(self).entry_scroll_position > 0 {
                    (old(self).entry_scroll_position - 1) as u16
                } else {
                    0
                },
                ..*old(self)
            }),
    {
        match self.selected {
            Selected::Feeds => {
                self.feeds.previous();
                self.update_current_feed_and_entries(store)?;
            },
            Selected::Entries => {
                if self.entries.items.len() > 0 {
                    self.entries.previous();
                    self.entry_selection_position = self.entries.state.unwrap();
                    self.update_current_entry_meta(store)?;
                }
            },
            Selected::Entry(_) => {
                if self.entry_scroll_position > 0 {
                    self.entry_scroll_position = self.entry_scroll_position - 1;
                }
            },
        }
        Ok(())
    }

    /// Moves down: the feed highlight (reloading the highlighted feed and its
    /// entries), the entry highlight (loading the current entry), or the
    /// open entry's scroll position, which stops at the entry's last line.
    pub fn on_down(&mut self, store: &FeedStore) -> (r: Result<(), Error>)
        requires
            store.wf(),
            old(self).wf(),
        ensures
            final(self).wf(),
            final(self).selected == old(self).selected,
            old(self).selected is Feeds ==> {
                &&& all_stored(old(self).feeds.items@, *store) ==> r is Ok
                &&& *final(self) == (AppImpl {
                    current_feed: final(self).current_feed,
                    feeds: final(self).feeds,
                    entries: final(self).entries,
                    ..*old(self)
                })
                &&& final(self).feeds.items == old(self).feeds.items
                &&& old(self).feeds.items@.len() > 0 ==> final(self).feeds.state == Some(
                    next_index(old(self).feeds.state, old(self).feeds.items@.len()),
                )
                &&& r is Ok ==> shows_entries(
                    final(self).entries.items@,
                    *store,
                    final(self).current_feed,
                    final(self).read_mode,
                )
                &&& r is Ok ==> (final(self).current_feed is Some <==> old(self).feeds.items@.len() > 0)
                &&& r is Ok && final(self).current_feed is Some ==> final(self).current_feed->0.id
                    == final(self).feeds.items@[final(self).feeds.state->0 as int].id
            },
            old(self).selected is Entries && old(self).entries.items@.len() == 0 ==> r is Ok
                && *final(self) == *old(self),
            old(self).selected is Entries && old(self).entries.items@.len() > 0 ==> {
                let i = next_index(old(self).entries.state, old(self).entries.items@.len());
                &&& *final(self) == (AppImpl {
                    entries: StatefulList { state: Some(i), items: old(self).entries.items },
                    entry_selection_position: i,
                    current_entry_meta: final(self).current_entry_meta,
                    ..*old(self)
                })
                &&& has_entry(store.entries@, old(self).entries.items@[i as int].id) <==> r is Ok
                &&& r is Ok ==> final(self).current_entry_meta is Some
                    && final(self).current_entry_meta->0.id == old(self).entries.items@[i as int].id
            },
            old(self).selected is Entry ==> r is Ok && *final(self) == (AppImpl {
                entry_scroll_position: if (old(self).entry_scroll_position as int) < old(self).entry_lines_len
                    && old(self).entry_scroll_position < u16::MAX {
                    (old(self).entry_scroll_position + 1) as u16
                } else {
                    old(self).entry_scroll_position
                },
                ..*old(self)
            }),
    {
        match self.selected {
            Selected::Feeds => {
                self.feeds.next();
                self.update_current_feed_and_entries(store)?;
            },
            Selected::Entries => {
                if self.entries.items.len() > 0 {
                    self.entries.next();
                    self.entry_selection_position = self.entries.state.unwrap();
                    self.update_current_entry_meta(store)?;
                }
            },
            Selected::Entry(_) => {
                if (self.entry_scroll_position as usize) < self.entry_lines_len
                    && self.entry_scroll_position < u16::MAX {
                    self.entry_scroll_position = self.entry_scroll_position + 1;
                }
            },
        }
        Ok(())
    }

    /// Goes one level deeper: from the feed list into a non-empty entry list,
    /// highlighting and loading its first entry; from the entry list into the
    /// highlighted entry, as `on_enter`; nothing else.
    pub fn on_right(&mut self, store: &FeedStore) -> (r: Result<(), Error>)
        requires
            store.wf(),
            old(self).wf(),
        ensures
            final(self).wf(),
            old(self).selected is Feeds && old(self).entries.items@.len() > 0 ==> {
                &&& *final(self) == (AppImpl {
                    selected: Selected::Entries,
                    entries: StatefulList { state: Some(0usize), items: old(self).entries.items },
                    current_entry_meta: final(self).current_entry_meta,
                    ..*old(self)
                })
                &&& has_entry(store.entries@, old(self).entries.items@[0].id) <==> r is Ok
                &&& r is Ok ==> final(self).current_entry_meta is Some
                    && final(self).current_entry_meta->0.id == old(self).entries.items@[0].id
            },
            old(self).selected is Feeds && old(self).entries.items@.len() == 0 ==> r is Ok
                && *final(self) == *old(self),
            old(self).selected is Entry ==> r is Ok && *final(self) == *old(self),
            old(self).selected is Entries && !old(self).opens() ==> r is Ok && *final(self)
                == *old(self),
            old(self).selected is Entries && old(self).opens() && old(self).entries.state is Some
                ==> (r is Ok <==> has_entry(
                store.entries@,
                old(self).entries.items@[old(self).entries.state->0 as int].id,
            )),
            old(self).selected is Entries && old(self).opens() && old(self).entries.state is None
                ==> r is Ok,
            old(self).selected is Entries && old(self).opens() && r is Ok ==> final(self).selected
                == Selected::Entry(old(self).current_entry_meta->0),
    {
        match self.selected {
            Selected::Feeds => {
                if self.entries.items.len() > 0 {
                    self.selected = Selected::Entries;
                    self.entries.reset();
                    self.update_current_entry_meta(store)?;
                }
                Ok(())
            },
            Selected::Entries => self.on_enter(store),
            Selected::Entry(_) => Ok(()),
        }
    }

    /// Marks the open entry, or the current entry of the entry list, read
    /// if it is unread and unread if it is read; reloads the entry list,
    /// keeping the highlight at its position or the new last entry. An open
    /// entry is closed. Fails only when that entry is not stored; does
    /// nothing on the feed list.
    pub fn toggle_read(&mut self, store: &mut FeedStore, now: i64) -> (r: Result<(), Error>)
        requires
            old(store).wf(),
            old(self).wf(),
        ensures
            final(store).wf(),
            final(self).wf(),
            final(self).read_mode == old(self).read_mode,
            final(self).current_feed == old(self).current_feed,
            old(self).selected is Feeds ==> r is Ok && *final(store) == *old(store) && *final(self)
                == *old(self),
            old(self).selected is Entries && old(self).current_entry_meta is None ==> r is Ok
                && *final(store) == *old(store) && *final(self) == *old(self),
            old(self).selected is Entry ==> (r is Ok <==> has_entry(
                old(store).entries@,
                old(self).selected->Entry_0.id,
            )),
            old(self).selected is Entries && old(self).current_entry_meta is Some ==> (r is Ok
                <==> has_entry(old(store).entries@, old(self).current_entry_meta->0.id)),
            r is Err ==> *final(store) == *old(store) && *final(self) == *old(self),
            r is Ok && old(self).selected is Entry ==> {
                let m = old(self).selected->Entry_0;
                &&& final(store).entries@ == with_read_at(
                    old(store).entries@,
                    m.id,
                    if m.read_at is None {
                        Some(now)
                    } else {
                        None
                    },
                )
                &&& final(self).selected == Selected::Entries
                &&& final(self).entry_scroll_position == 0
                &&& final(self).entry_selection_position == clamped_position(
                    old(self).entry_selection_position,
                    final(self).entries.items@.len(),
                )
                &&& shows_entries(
                    final(self).entries.items@,
                    *final(store),
                    final(self).current_feed,
                    final(self).read_mode,
                )
                &&& final(self).entries.state == reloaded_highlight(
                    old(self).entry_selection_position,
                    final(self).entries.items@.len(),
                )
            },
            r is Ok && old(self).selected is Entries && old(self).current_entry_meta is Some ==> {
                let m = old(self).current_entry_meta->0;
                &&& final(store).entries@ == with_read_at(
                    old(store).entries@,
                    m.id,
                    if m.read_at is None {
                        Some(now)
                    } else {
                        None
                    },
                )
                &&& final(self).selected == Selected::Entries
                &&& shows_entries(
                    final(self).entries.items@,
                    *final(store),
                    final(self).current_feed,
                    final(self).read_mode,
                )
                &&& final(self).entries.state == reloaded_highlight(
                    old(self).entry_selection_position,
                    final(self).entries.items@.len(),
                )
                &&& final(self).entry_selection_position == clamped_position(
                    old(self).entry_selection_position,
                    final(self).entries.items@.len(),
                )
            },
    {
        let selected = copy_selected(&self.selected);
        match selected {
            Selected::Entry(entry) => {
                entry.toggle_read(store, now)?;
                self.selected = Selected::Entries;
                self.update_current_entries(store);
                proof {
                    if self.entries.state is Some {
                        lemma_shown_entry_stored(
                            self.entries.items@,
                            *store,
                            self.current_feed,
                            self.read_mode,
                            self.entries.state->0 as int,
                        );
                    }
                }
                let meta = self.update_current_entry_meta(store);
                assert(meta is Ok);
                self.update_entry_selection_position();
                self.entry_scroll_position = 0;
            },
            Selected::Entries => {
                if let Some(entry_meta) = &self.current_entry_meta {
                    let meta = entry_meta.duplicate();
                    meta.toggle_read(store, now)?;
                    self.update_current_entries(store);
                    proof {
                        if self.entries.state is Some {
                            lemma_shown_entry_stored(
                                self.entries.items@,
                                *store,
                                self.current_feed,
                                self.read_mode,
                                self.entries.state->0 as int,
                            );
                        }
                    }
                    let loaded = self.update_current_entry_meta(store);
                    assert(loaded is Ok);
                    self.update_entry_selection_position();
                }
            },
            Selected::Feeds => {},
        }
        Ok(())
    }

    /// Switches between showing unread and read entries (an open entry keeps
    /// the mode), reloads the entry list and highlights its first entry, if
    /// it has one.
    pub fn toggle_read_mode(&mut self, store: &FeedStore) -> (r: Result<(), Error>)
        requires
            store.wf(),
            old(self).wf(),
        ensures
            r is Ok,
            final(self).wf(),
            *final(self) == (AppImpl {
                read_mode: final(self).read_mode,
                entry_selection_position: final(self).entry_selection_position,
                entries: final(self).entries,
                current_entry_meta: final(self).current_entry_meta,
                ..*old(self)
            }),
            final(self).read_mode == if old(self).selected is Entry {
                old(self).read_mode
            } else {
                match old(self).read_mode {
                    ReadMode::ShowRead => ReadMode::ShowUnread,
                    ReadMode::ShowUnread => ReadMode::ShowRead,
                    ReadMode::All => ReadMode::All,
                }
            },
            final(self).entry_selection_position == if old(self).selected is Entry
                || old(self).read_mode == ReadMode::All {
                old(self).entry_selection_position
            } else {
                0
            },
            shows_entries(
                final(self).entries.items@,
                *store,
                final(self).current_feed,
                final(self).read_mode,
            ),
            final(self).entries.state == if final(self).entries.items@.len() > 0 {
                Some(0usize)
            } else {
                None
            },
            final(self).entries.items@.len() > 0 ==> final(self).current_entry_meta is Some
                && final(self).current_entry_meta->0.id == final(self).entries.items@[0].id,
            final(self).entries.items@.len() == 0 ==> final(self).current_entry_meta == old(self).current_entry_meta,
    {
        match (&self.read_mode, &self.selected) {
            (ReadMode::ShowRead, Selected::Feeds) | (ReadMode::ShowRead, Selected::Entries) => {
                self.entry_selection_position = 0;
                self.read_mode = ReadMode::ShowUnread;
            },
            (ReadMode::ShowUnread, Selected::Feeds) | (ReadMode::ShowUnread, Selected::Entries) => {
                self.entry_selection_position = 0;
                self.read_mode = ReadMode::ShowRead;
            },
            _ => {},
        }
        self.update_current_entries(store);
        if self.entries.items.len() > 0 {
            self.entries.reset();
            proof {
                lemma_shown_entry_stored(
                    self.entries.items@,
                    *store,
                    self.current_feed,
                    self.read_mode,
                    0,
                );
            }
        } else {
            self.entries.unselect();
        }
        let loaded = self.update_current_entry_meta(store);
        assert(loaded is Ok);
        Ok(())
    }

    /// Takes the completion of a refresh of `feed_ids`: the highlighted feed
    /// and its entries are reloaded if it was among them; otherwise nothing
    /// visible changes. Succeeds when every listed feed is stored.
    pub fn on_refresh_completed(&mut self, store: &FeedStore, feed_ids: &Vec<FeedId>) -> (r:
        Result<(), Error>)
        requires
            store.wf(),
            old(self).wf(),
        ensures
            final(self).wf(),
            all_stored(old(self).feeds.items@, *store) ==> r is Ok,
            *final(self) == (AppImpl {
                current_feed: final(self).current_feed,
                feeds: final(self).feeds,
                entries: final(self).entries,
                ..*old(self)
            }),
            final(self).feeds.items == old(self).feeds.items,
            !(old(self).current_feed is Some && feed_ids@.contains(old(self).current_feed->0.id))
                ==> r is Ok && *final(self) == *old(self),
            old(self).current_feed is Some && feed_ids@.contains(old(self).current_feed->0.id)
                && r is Ok ==> shows_entries(
                final(self).entries.items@,
                *store,
                final(self).current_feed,
                final(self).read_mode,
            ) && final(self).entries.state == reloaded_highlight(
                old(self).entry_selection_position,
                final(self).entries.items@.len(),
            ),
    {
        let current = match &self.current_feed {
            Some(f) => f.id,
            None => return Ok(()),
        };
        let mut found = false;
        let mut i: usize = 0;
        while i < feed_ids.len()
            invariant
                i <= feed_ids@.len(),
                found == exists|k: int| 0 <= k < i && feed_ids@[k] == current,
            decreases feed_ids@.len() - i,
        {
            if feed_ids[i] == current {
                found = true;
            }
            i = i + 1;
        }
        if found {
            self.update_current_feed_and_entries(store)
        } else {
            Ok(())
        }
    }

    /// Unsubscribes from the highlighted feed: it and its entries leave the
    /// store, and the feed list is reloaded and shown. Does nothing when no
    /// feed is highlighted; fails only when the highlighted feed is not
    /// stored.
    pub fn delete_feed(&mut self, store: &mut FeedStore) -> (r: Result<(), Error>)
        requires
            old(store).wf(),
            old(self).wf(),
        ensures
            final(store).wf(),
            final(self).wf(),
            old(self).feeds.state is None ==> r is Ok && *final(store) == *old(store)
                && *final(self) == *old(self),
            old(self).feeds.state is Some ==> (r is Ok <==> has_feed(
                old(store).feeds@,
                old(self).feeds.items@[old(self).feeds.state->0 as int].id,
            )),
            r is Err ==> *final(store) == *old(store) && *final(self) == *old(self),
            old(self).feeds.state is Some && r is Ok ==> {
                let id = old(self).feeds.items@[old(self).feeds.state->0 as int].id;
                &&& forall|f: Feed|
                    final(store).feeds@.contains(f) <==> old(store).feeds@.contains(f) && f.id != id
                &&& forall|e: crate::rss::Entry|
                    final(store).entries@.contains(e) <==> old(store).entries@.contains(e)
                        && e.feed_id != id
                &&& forall|f: Feed|
                    final(self).feeds.items@.contains(f) <==> final(store).feeds@.contains(f)
                &&& sorted_feeds(final(self).feeds.items@)
                &&& final(self).selected == Selected::Feeds
                &&& shows_entries(
                    final(self).entries.items@,
                    *final(store),
                    final(self).current_feed,
                    final(self).read_mode,
                )
            },
    {
        let idx = match self.feeds.state {
            Some(idx) => idx,
            None => return Ok(()),
        };
        let feed_id = self.feeds.items[idx].id;
        crate::store::delete_feed(store, feed_id)?;
        self.selected = Selected::Feeds;
        self.entry_selection_position = 0;
        self.update_feeds(store);
        let reloaded = self.update_current_feed_and_entries(store);
        assert(reloaded is Ok);
        Ok(())
    }

    /// Takes the outcome of subscribing to the URL in the input: on success
    /// the input is cleared, the feed list reloaded and shown, and typing
    /// ends; on failure the input is kept and the error shown.
    pub fn subscribed(&mut self, store: &FeedStore, outcome: Result<FeedId, Error>) -> (r: Result<
        (),
        Error,
    >)
        requires
            store.wf(),
            old(self).wf(),
        ensures
            r is Ok,
            final(self).wf(),
            outcome is Err ==> *final(self) == (AppImpl {
                error_flash: final(self).error_flash,
                ..*old(self)
            }) && final(self).error_flash@.len() == old(self).error_flash@.len() + 1
                && final(self).error_flash@.drop_last() == old(self).error_flash@
                && final(self).error_flash@.last()@ == crate::error::message_of(outcome->Err_0),
            outcome is Ok ==> {
                &&& final(self).feed_subscription_input@.len() == 0
                &&& final(self).selected == Selected::Feeds
                &&& final(self).mode == Mode::Normal
                &&& sorted_feeds(final(self).feeds.items@)
                &&& final(self).feeds.items@.len() == store.feeds@.len()
                &&& forall|f: Feed|
                    final(self).feeds.items@.contains(f) <==> store.feeds@.contains(f)
                &&& shows_entries(
                    final(self).entries.items@,
                    *store,
                    final(self).current_feed,
                    final(self).read_mode,
                )
                &&& (final(self).current_feed is Some <==> store.feeds@.len() > 0)
            },
    {
        match outcome {
            Ok(_) => {
                self.reset_feed_subscription_input();
                self.update_feeds(store);
                self.select_feeds();
                let reloaded = self.update_current_feed_and_entries(store);
                assert(reloaded is Ok);
                self.mode = Mode::Normal;
                Ok(())
            },
            Err(e) => {
                self.error_flash.push(e.message());
                Ok(())
            },
        }
    }
}

} // verus!
