//! A local-first feed reader: a feed store, the synchronization of remote
//! feeds into it, and the modal reader state that navigates it.
//!
//! - `rss`: feeds, entries, and reading Atom and RSS documents;
//! - `store`: the feed store, its listing orders and read filters;
//! - `sync`: link-based deduplication, refresh and subscription;
//! - `io`: refreshing a batch of feeds and summing up the outcome;
//! - `app`: the reader's session state and its actions;
//! - `sql`: the text of bulk insert statements;
//! - `opml`, `options`, `ui`, `util`, `modes`, `error`: the rest.
//!
//! Network, database file, terminal and clipboard access stay with the
//! caller: functions here take fetched documents and return what to store
//! or show.

pub mod app;
pub mod error;
pub mod io;
pub mod modes;
pub mod opml;
pub mod options;
pub mod rss;
pub mod sql;
pub mod store;
pub mod sync;
pub mod ui;
pub mod util;
