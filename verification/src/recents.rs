//! The launcher's own list of recently opened documents, most recent first.

use vstd::prelude::*;

use crate::keyed::{move_to_front, moved_to_front, KeyedEntry};
use crate::path::join_path;

verus! {

/// How many documents the recent list remembers.
pub const MAX_RECENTS: usize = 20;

/// Which reader a recent document opens in.
#[derive(Debug, Clone, Copy, PartialEq, Eq, Structural)]
pub enum DocKind {
    Pdf,
    Epub,
}

/// One recently opened document.
pub struct RecentEntry {
    pub hash: String,
    pub path: String,
    pub title: String,
    pub kind: DocKind,
    /// When it was last opened, as an RFC 3339 UTC timestamp.
    pub last_opened: String,
}

impl KeyedEntry for RecentEntry {
    open spec fn key(&self) -> Seq<char> {
        self.hash@
    }

    fn key_str(&self) -> (k: &str) {
        self.hash.as_str()
    }
}

/// The recent-documents list.
pub struct Recents(pub Vec<RecentEntry>);

impl Recents {
    /// The records, most recently opened first.
    pub open spec fn view(&self) -> Seq<RecentEntry> {
        self.0@
    }

    /// An empty list.
    pub fn new() -> (r: Recents)
        ensures
            r.view() == Seq::<RecentEntry>::empty(),
    {
        Recents(Vec::new())
    }

    /// The records, most recently opened first.
    pub fn entries(&self) -> (e: &[RecentEntry])
        ensures
            e@ == self.view(),
    {
        self.0.as_slice()
    }

    /// Move (or insert) `entry` to the front, drop any older record of the same document,
    /// and keep only the [`MAX_RECENTS`] most recent records.
    pub fn touch(&mut self, entry: RecentEntry)
        ensures
            final(self).view() == moved_to_front(old(self).view(), entry, MAX_RECENTS as nat),
    {
        move_to_front(&mut self.0, entry, MAX_RECENTS);
    }
}

/// The directory the launcher keeps its own files in, under the user data directory.
pub fn data_dir(user_data_dir: &str) -> (p: String)
    ensures
        p@ == crate::path::joined(user_data_dir@, "pereplyot"@),
{
    join_path(user_data_dir, "pereplyot")
}

/// Where the recent list is kept, under the user data directory.
pub fn recents_path(user_data_dir: &str) -> (p: String)
    ensures
        p@ == crate::path::joined(crate::path::joined(user_data_dir@, "pereplyot"@), "recents.json"@),
{
    let dir = data_dir(user_data_dir);
    join_path(dir.as_str(), "recents.json")
}

} // verus!
