//! The Library: documents the reader chose to keep, separate from the History log. A
//! document is added at most once; adding it again changes nothing.

use vstd::prelude::*;

use crate::history::DocKind;
use crate::keyed::{
    contains_key, has_key, keys_distinct, lemma_without_absent_key, lemma_without_key_distinct,
    lemma_without_key_members, remove_key, without_key, KeyedEntry,
};
use crate::path::join_path;

verus! {

/// One document kept in the Library.
pub struct LibraryEntry {
    pub hash: String,
    pub path: String,
    pub title: String,
    pub kind: DocKind,
    /// When it was added, as an RFC 3339 UTC timestamp.
    pub added_at: String,
}

impl KeyedEntry for LibraryEntry {
    open spec fn key(&self) -> Seq<char> {
        self.hash@
    }

    fn key_str(&self) -> (k: &str) {
        self.hash.as_str()
    }
}

/// The Library: its records in the order they were added.
pub struct Library(pub Vec<LibraryEntry>);

/// The Library after `add(e)`: unchanged if it already has `e`'s document, else `e` appended.
pub open spec fn library_added(s: Seq<LibraryEntry>, e: LibraryEntry) -> Seq<LibraryEntry> {
    if has_key(s, e.key()) {
        s
    } else {
        s.push(e)
    }
}

impl Library {
    /// The records, in the order they were added.
    pub open spec fn view(&self) -> Seq<LibraryEntry> {
        self.0@
    }

    /// An empty Library.
    pub fn new() -> (l: Library)
        ensures
            l.view() == Seq::<LibraryEntry>::empty(),
    {
        Library(Vec::new())
    }

    /// The records, in the order they were added.
    pub fn entries(&self) -> (e: &[LibraryEntry])
        ensures
            e@ == self.view(),
    {
        self.0.as_slice()
    }

    /// Whether the document with content hash `hash` is in the Library.
    pub fn contains(&self, hash: &str) -> (r: bool)
        ensures
            r == has_key(self.view(), hash@),
    {
        contains_key(&self.0, hash)
    }

    /// Add `entry` unless its document is already in the Library; reports whether anything
    /// changed (and so whether the Library needs saving).
    pub fn add(&mut self, entry: LibraryEntry) -> (changed: bool)
        ensures
            changed == !has_key(old(self).view(), entry.key()),
            final(self).view() == library_added(old(self).view(), entry),
            (exists|i: int| 0 <= i < old(self).view().len() && #[trigger] old(self).view()[i].hash@ == entry.hash@)
                ==> !changed && final(self).view() == old(self).view(),
            !(exists|i: int| 0 <= i < old(self).view().len() && #[trigger] old(self).view()[i].hash@ == entry.hash@)
                ==> changed && final(self).view() == old(self).view().push(entry),
    {
        if self.contains(entry.key_str()) {
            proof {
                let i = choose|i: int| 0 <= i < self.0@.len() && #[trigger] self.0@[i].key() == entry.key();
                assert(self.0@[i].hash@ == entry.hash@);
            }
            return false;
        }
        proof {
            if exists|i: int| 0 <= i < self.0@.len() && #[trigger] self.0@[i].hash@ == entry.hash@ {
                let i = choose|i: int| 0 <= i < self.0@.len() && #[trigger] self.0@[i].hash@ == entry.hash@;
                assert(self.0@[i].key() == entry.key());
            }
        }
        self.0.push(entry);
        true
    }

    /// Remove the document with content hash `hash`, if present.
    pub fn remove(&mut self, hash: &str)
        ensures
            final(self).view() == without_key(old(self).view(), hash@),
    {
        remove_key(&mut self.0, hash);
    }
}

/// Where the Library is kept, under the user data directory.
pub fn library_path(user_data_dir: &str) -> (p: String)
    ensures
        p@ == crate::path::joined(crate::path::joined(user_data_dir@, "pereplyot"@), "library.json"@),
{
    let dir = crate::recents::data_dir(user_data_dir);
    join_path(dir.as_str(), "library.json")
}

/// Law: adding a document the Library already keeps leaves every record exactly as it was
/// (the kept record's title, path and date are not replaced).
pub proof fn law_add_existing_keeps_records(s: Seq<LibraryEntry>, e: LibraryEntry)
    requires
        exists|i: int| 0 <= i < s.len() && #[trigger] s[i].hash@ == e.hash@,
    ensures
        library_added(s, e) == s,
{
    let i = choose|i: int| 0 <= i < s.len() && #[trigger] s[i].hash@ == e.hash@;
    assert(s[i].key() == e.key());
}

/// Law: adding a document the Library does not keep puts it last, after the records as they
/// were.
pub proof fn law_add_new_appends(s: Seq<LibraryEntry>, e: LibraryEntry)
    requires
        forall|i: int| 0 <= i < s.len() ==> #[trigger] s[i].hash@ != e.hash@,
    ensures
        library_added(s, e) == s.push(e),
{
    if has_key(s, e.key()) {
        let i = choose|i: int| 0 <= i < s.len() && #[trigger] s[i].key() == e.key();
        assert(s[i].hash@ != e.hash@);
    }
}

/// Law: a document just added is in the Library.
pub proof fn law_add_then_contains(s: Seq<LibraryEntry>, e: LibraryEntry)
    ensures
        has_key(library_added(s, e), e.key()),
{
    if !has_key(s, e.key()) {
        assert(s.push(e)[s.len() as int] == e);
    }
}

/// Law: adding the same record twice leaves the Library as adding it once did.
pub proof fn law_add_idempotent(s: Seq<LibraryEntry>, e: LibraryEntry)
    ensures
        library_added(library_added(s, e), e) == library_added(s, e),
{
    law_add_then_contains(s, e);
}

/// Law: removing a document that was just added (and was not there before) gives back the
/// Library as it was.
pub proof fn law_remove_undoes_add(s: Seq<LibraryEntry>, e: LibraryEntry)
    requires
        !has_key(s, e.key()),
    ensures
        without_key(library_added(s, e), e.key()) == s,
{
    let t = s.push(e);
    assert(t.drop_last() =~= s);
    assert(t.last() == e);
    lemma_without_absent_key(s, e.key());
}

/// Law: after removing a document, the Library no longer has it.
pub proof fn law_remove_then_absent(s: Seq<LibraryEntry>, hash: Seq<char>)
    ensures
        !has_key(without_key(s, hash), hash),
{
    lemma_without_key_members(s, hash);
}

/// Law: adding and removing keep the Library free of duplicate documents.
pub proof fn law_keys_stay_distinct(s: Seq<LibraryEntry>, e: LibraryEntry, hash: Seq<char>)
    requires
        keys_distinct(s),
    ensures
        keys_distinct(library_added(s, e)),
        keys_distinct(without_key(s, hash)),
{
    lemma_without_key_distinct(s, hash);
    if !has_key(s, e.key()) {
        let t = s.push(e);
        assert forall|i: int, j: int| 0 <= i < t.len() && 0 <= j < t.len() && i != j
            implies #[trigger] t[i].key() != #[trigger] t[j].key() by {
            if i < s.len() && j < s.len() {
                assert(t[i] == s[i] && t[j] == s[j]);
            } else if i < s.len() {
                assert(t[i] == s[i]);
            } else {
                assert(t[j] == s[j]);
            }
        }
    }
}

} // verus!
