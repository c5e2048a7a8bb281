//! The reader is modal, and these are the modes it can be in.
use vstd::prelude::*;

verus! {

/// What type of object is currently selected.
#[derive(Clone, Debug)]
pub enum Selected {
    Feeds,
    Entries,
    Entry(crate::rss::EntryMeta),
}

/// Whether keys are read as commands or typed into the subscription input.
#[derive(Clone, Copy, Debug, PartialEq, Eq, Structural)]
pub enum Mode {
    Editing,
    Normal,
}

/// Which entries of a feed are listed.
#[derive(Clone, Copy, Debug, PartialEq, Eq, Structural)]
pub enum ReadMode {
    ShowRead,
    ShowUnread,
    All,
}

} // verus!
