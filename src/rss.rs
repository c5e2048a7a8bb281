//! Feeds and entries, and reading them out of Atom and RSS documents.
use crate::error::Error;
use std::str::FromStr;
use vstd::prelude::*;
use vstd::string::*;

verus! {

pub type EntryId = i64;

pub type FeedId = i64;

/// The wire format a feed was read from.
#[derive(Clone, Copy, Debug, PartialEq, Eq, Structural)]
pub enum FeedKind {
    Atom,
    Rss,
}

/// The name under which a feed kind is stored.
pub open spec fn feed_kind_name(k: FeedKind) -> Seq<char> {
    match k {
        FeedKind::Atom => "Atom"@,
        FeedKind::Rss => "RSS"@,
    }
}

/// Whether two strings hold the same characters.
pub fn str_eq(a: &str, b: &str) -> (r: bool)
    ensures
        r == (a@ == b@),
{
    let n = a.unicode_len();
    if n != b.unicode_len() {
        return false;
    }
    let mut i: usize = 0;
    while i < n
        invariant
            n == a@.len(),
            n == b@.len(),
            i <= n,
            a@.subrange(0, i as int) == b@.subrange(0, i as int),
        decreases n - i,
    {
        if a.get_char(i) != b.get_char(i) {
            return false;
        }
        assert(a@.subrange(0, i + 1) == a@.subrange(0, i as int).push(a@[i as int]));
        assert(b@.subrange(0, i + 1) == b@.subrange(0, i as int).push(b@[i as int]));
        i = i + 1;
    }
    assert(a@ == a@.subrange(0, n as int));
    assert(b@ == b@.subrange(0, n as int));
    true
}

impl FeedKind {
    /// The stored name of this kind.
    pub fn as_str(&self) -> (r: &'static str)
        ensures
            r@ == feed_kind_name(*self),
    {
        match self {
            FeedKind::Atom => "Atom",
            FeedKind::Rss => "RSS",
        }
    }

    /// The kind stored under `s`, if `s` is the name of one.
    pub fn parse(s: &str) -> (r: Option<FeedKind>)
        ensures
            r == (if s@ == feed_kind_name(FeedKind::Atom) {
                Some(FeedKind::Atom)
            } else if s@ == feed_kind_name(FeedKind::Rss) {
                Some(FeedKind::Rss)
            } else {
                None
            }),
    {
        if str_eq(s, "Atom") {
            Some(FeedKind::Atom)
        } else if str_eq(s, "RSS") {
            Some(FeedKind::Rss)
        } else {
            None
        }
    }
}

impl FromStr for FeedKind {
    type Err = Error;

    fn from_str(s: &str) -> Result<FeedKind, Error> {
        match FeedKind::parse(s) {
            Some(k) => Ok(k),
            None => Err(Error::FeedKindError(s.to_owned())),
        }
    }
}

/// A subscribed feed. Times are seconds since the Unix epoch.
#[derive(Clone, Debug)]
pub struct Feed {
    pub id: FeedId,
    pub title: Option<String>,
    /// The URL that is polled for updates.
    pub feed_link: Option<String>,
    /// The human-facing site link.
    pub link: Option<String>,
    pub feed_kind: FeedKind,
    pub refreshed_at: Option<i64>,
    pub inserted_at: i64,
    pub updated_at: i64,
}

/// A stored entry of a feed. `read_at` is `None` while the entry is unread.
#[derive(Clone, Debug)]
pub struct Entry {
    pub id: EntryId,
    pub feed_id: FeedId,
    pub title: Option<String>,
    pub author: Option<String>,
    pub pub_date: Option<i64>,
    pub description: Option<String>,
    pub content: Option<String>,
    pub link: Option<String>,
    pub read_at: Option<i64>,
    pub inserted_at: i64,
    pub updated_at: i64,
}

/// An entry without its body, as entry lists show it.
#[derive(Clone, Debug)]
pub struct EntryMeta {
    pub id: EntryId,
    pub feed_id: FeedId,
    pub title: Option<String>,
    pub author: Option<String>,
    pub pub_date: Option<i64>,
    pub link: Option<String>,
    pub read_at: Option<i64>,
    pub inserted_at: i64,
    pub updated_at: i64,
}

/// The body of an entry.
pub struct EntryContent {
    pub content: Option<String>,
    pub description: Option<String>,
}

/// An entry as a remote document gives it, before it is stored.
#[derive(Clone, Debug)]
pub struct RemoteEntry {
    pub title: Option<String>,
    pub author: Option<String>,
    pub pub_date: Option<i64>,
    pub description: Option<String>,
    pub content: Option<String>,
    pub link: Option<String>,
}

/// An item of an RSS channel, its date still as written.
#[derive(Clone, Debug)]
pub struct RssItem {
    pub title: Option<String>,
    pub author: Option<String>,
    pub pub_date: Option<String>,
    pub description: Option<String>,
    pub content: Option<String>,
    pub link: Option<String>,
}

/// The title and site link of a remote document.
#[derive(Clone, Debug)]
pub struct FeedHeader {
    pub title: Option<String>,
    pub link: Option<String>,
}

/// An Atom feed as atom_syndication reads it.
pub struct AtomDocument {
    pub header: FeedHeader,
    pub entries: Vec<RemoteEntry>,
}

/// An RSS channel as rss reads it.
pub struct RssChannel {
    pub header: FeedHeader,
    pub items: Vec<RssItem>,
}

/// A parsed document: the feed and its entries.
pub struct FeedAndEntries {
    pub feed: Feed,
    pub entries: Vec<RemoteEntry>,
}

impl FeedAndEntries {
    pub fn set_feed_link(&mut self, url: &str)
        ensures
            final(self).feed.feed_link is Some,
            final(self).feed.feed_link->0@ == url@,
            final(self).feed.id == old(self).feed.id,
            final(self).feed.title == old(self).feed.title,
            final(self).feed.link == old(self).feed.link,
            final(self).feed.feed_kind == old(self).feed.feed_kind,
            final(self).entries == old(self).entries,
    {
        self.feed.feed_link = Some(url.to_owned());
    }
}

/// The Atom feed that `s` holds, if it reads as one.
pub uninterp spec fn atom_feed_of(s: Seq<char>) -> Option<AtomDocument>;

/// The RSS channel that `s` holds, if it reads as one.
pub uninterp spec fn rss_channel_of(s: Seq<char>) -> Option<RssChannel>;

/// The instant that a date string denotes, in seconds since the Unix epoch.
pub uninterp spec fn date_of(s: Seq<char>) -> Option<i64>;

/// Relies on atom_syndication's `Feed::from_str`: reads the feed title
/// (`Feed::title`) and the href of its first link (`Feed::links`).
#[verifier::external_body]
pub(crate) fn atom_header(s: &str) -> (r: Option<FeedHeader>)
    ensures
        r is Some == atom_feed_of(s@) is Some,
        r is Some ==> r->0 == atom_feed_of(s@)->0.header,
        r is Some ==> r->0.title is Some,
{
    let f = atom_syndication::Feed::from_str(s).ok()?;
    let title = Some(f.title().as_str().to_owned());
    Some(FeedHeader { title, link: f.links().first().map(|l| l.href().to_owned()) })
}

/// Relies on atom_syndication's `Feed::from_str` and `Feed::entries`: each
/// entry's title, first author, publication instant, content and first link.
#[verifier::external_body]
pub(crate) fn atom_entries(s: &str) -> (r: Option<Vec<RemoteEntry>>)
    ensures
        r is Some == atom_feed_of(s@) is Some,
        r is Some ==> r->0@ == atom_feed_of(s@)->0.entries@,
{
    let f = atom_syndication::Feed::from_str(s).ok()?;
    Some(f.entries().iter().map(|e| RemoteEntry {
        title: Some(e.title().as_str().to_owned()),
        author: e.authors().first().map(|a| a.name().to_owned()),
        pub_date: e.published().map(|d| d.timestamp()),
        description: None,
        content: e.content().and_then(|c| c.value().map(str::to_owned)),
        link: e.links().first().map(|l| l.href().to_owned()),
    }).collect())
}

/// Relies on rss's `Channel::from_str`: reads the channel title and link.
#[verifier::external_body]
pub(crate) fn rss_header(s: &str) -> (r: Option<FeedHeader>)
    ensures
        r is Some == rss_channel_of(s@) is Some,
        r is Some ==> r->0 == rss_channel_of(s@)->0.header,
        r is Some ==> r->0.title is Some && r->0.link is Some,
{
    let c = ::rss::Channel::from_str(s).ok()?;
    Some(FeedHeader { title: Some(c.title().to_owned()), link: Some(c.link().to_owned()) })
}

/// Relies on rss's `Channel::from_str` and `Channel::items`: each item's
/// fields as written in the document.
#[verifier::external_body]
pub(crate) fn rss_items(s: &str) -> (r: Option<Vec<RssItem>>)
    ensures
        r is Some == rss_channel_of(s@) is Some,
        r is Some ==> r->0@ == rss_channel_of(s@)->0.items@,
{
    let c = ::rss::Channel::from_str(s).ok()?;
    Some(c.items().iter().map(|i| RssItem {
        title: i.title().map(str::to_owned),
        author: i.author().map(str::to_owned),
        pub_date: i.pub_date().map(str::to_owned),
        description: i.description().map(str::to_owned),
        content: i.content().map(str::to_owned),
        link: i.link().map(str::to_owned),
    }).collect())
}

/// Relies on diligent_date_parser's `parse_date`, which tries many date
/// formats in turn; the result is taken as seconds since the Unix epoch.
#[verifier::external_body]
pub(crate) fn parse_datetime(s: &str) -> (r: Option<i64>)
    ensures
        r == date_of(s@),
{
    diligent_date_parser::parse_date(s).map(|d| d.timestamp())
}

} // verus!
