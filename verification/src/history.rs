//! The reading-history log shared by every app that embeds the reader: one record per
//! document ever opened, most recently opened first.

use vstd::prelude::*;

use crate::keyed::{move_to_front, moved_to_front, KeyedEntry};
use crate::path::join_path;

verus! {

/// How many documents the history log remembers.
pub const MAX_ENTRIES: usize = 50;

/// Which reader a document opens in.
#[derive(Debug, Clone, Copy, PartialEq, Eq, Structural)]
pub enum DocKind {
    Pdf,
    Epub,
}

/// One document in the history log.
pub struct HistoryEntry {
    /// The document's content hash.
    pub hash: String,
    /// Where the document was opened from.
    pub path: String,
    pub title: String,
    pub kind: DocKind,
    /// When it was last opened, as an ISO 8601 timestamp.
    pub last_opened: String,
}

impl KeyedEntry for HistoryEntry {
    open spec fn key(&self) -> Seq<char> {
        self.hash@
    }

    fn key_str(&self) -> (k: &str) {
        self.hash.as_str()
    }
}

/// Where the history log is kept, under the user's home directory `home` (deliberately a
/// real home-relative path, shared by every app that records into it).
pub fn history_path(home: &str) -> (p: String)
    ensures
        p@ == crate::path::joined(home@, ".local/share/pereplyot/recents.json"@),
{
    join_path(home, ".local/share/pereplyot/recents.json")
}

/// Record that the document at `path` (content hash `hash`, kind `kind`, title `title`) was
/// just opened at time `last_opened`: its record moves to the front of `entries` (or is
/// added there), any older record of the same document goes, and the log is cut to its
/// [`MAX_ENTRIES`] most recent records.
pub fn record_open(
    entries: Vec<HistoryEntry>,
    kind: DocKind,
    hash: &str,
    path: &str,
    title: &str,
    last_opened: String,
) -> (r: Vec<HistoryEntry>)
    ensures
        r@.len() >= 1,
        r@[0].hash@ == hash@,
        r@[0].path@ == path@,
        r@[0].title@ == title@,
        r@[0].kind == kind,
        r@[0].last_opened@ == last_opened@,
        r@ == moved_to_front(entries@, r@[0], MAX_ENTRIES as nat),
{
    let mut entries = entries;
    let entry = HistoryEntry {
        hash: hash.to_owned(),
        path: path.to_owned(),
        title: title.to_owned(),
        kind,
        last_opened,
    };
    move_to_front(&mut entries, entry, MAX_ENTRIES);
    entries
}

} // verus!
