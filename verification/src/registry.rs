//! The open-reader registry: which document (by content hash) already has a reader open, so
//! that opening it again surfaces the existing reader instead of a second one whose saves
//! would overwrite the first's.

use vstd::prelude::*;

use crate::text::str_eq;

verus! {

/// The readers currently open, each under its document's content hash. `T` is whatever
/// handle the user interface uses for an open reader.
pub struct ReaderRegistry<T> {
    keys: Vec<String>,
    tabs: Vec<T>,
}

/// The position of `k` in `keys`.
pub open spec fn index_of(keys: Seq<String>, k: Seq<char>) -> int {
    choose|i: int| 0 <= i < keys.len() && keys[i]@ == k
}

/// Whether some key of `keys` is `k`.
pub open spec fn key_present(keys: Seq<String>, k: Seq<char>) -> bool {
    exists|i: int| 0 <= i < keys.len() && keys[i]@ == k
}

/// One handle per key, the keys all different.
pub open spec fn entries_wf<T>(keys: Seq<String>, tabs: Seq<T>) -> bool {
    &&& keys.len() == tabs.len()
    &&& forall|i: int, j: int|
        0 <= i < keys.len() && 0 <= j < keys.len() && i != j ==> #[trigger] keys[i]@ != #[trigger] keys[j]@
}

/// The handles by key.
pub open spec fn entries_view<T>(keys: Seq<String>, tabs: Seq<T>) -> Map<Seq<char>, T> {
    Map::new(|k: Seq<char>| key_present(keys, k), |k: Seq<char>| tabs[index_of(keys, k)])
}

fn find_key(keys: &Vec<String>, hash: &str) -> (r: Option<usize>)
    requires
        forall|i: int, j: int|
            0 <= i < keys@.len() && 0 <= j < keys@.len() && i != j ==> #[trigger] keys@[i]@ != #[trigger] keys@[j]@,
    ensures
        match r {
            Some(i) => i < keys@.len() && keys@[i as int]@ == hash@ && index_of(keys@, hash@) == i,
            None => !key_present(keys@, hash@),
        },
{
    let mut i: usize = 0;
    while i < keys.len()
        invariant
            forall|a: int, b: int|
                0 <= a < keys@.len() && 0 <= b < keys@.len() && a != b ==> #[trigger] keys@[a]@ != #[trigger] keys@[b]@,
            i <= keys@.len(),
            forall|m: int| 0 <= m < i ==> keys@[m]@ != hash@,
        decreases keys.len() - i,
    {
        if str_eq(keys[i].as_str(), hash) {
            proof {
                let j = index_of(keys@, hash@);
                assert(key_present(keys@, hash@));
                if j != i {
                    assert(keys@[j]@ != keys@[i as int]@);
                }
            }
            return Some(i);
        }
        i = i + 1;
    }
    None
}

impl<T> ReaderRegistry<T> {
    /// One handle per key, the keys all different.
    #[verifier::type_invariant]
    spec fn well_formed(self) -> bool {
        entries_wf(self.keys@, self.tabs@)
    }

    /// The open readers, by content hash.
    pub closed spec fn view(&self) -> Map<Seq<char>, T> {
        entries_view(self.keys@, self.tabs@)
    }

    /// No reader open.
    pub fn new() -> (r: Self)
        ensures
            r.view() == Map::<Seq<char>, T>::empty(),
    {
        let r = ReaderRegistry { keys: Vec::new(), tabs: Vec::new() };
        assert(r.view() =~= Map::<Seq<char>, T>::empty());
        r
    }

    /// The reader open on the document with content hash `hash`, if there is one.
    pub fn existing_reader(&self, hash: &str) -> (r: Option<&T>)
        ensures
            match r {
                Some(t) => self.view().dom().contains(hash@) && *t == self.view()[hash@],
                None => !self.view().dom().contains(hash@),
            },
    {
        proof {
            use_type_invariant(self);
        }
        match find_key(&self.keys, hash) {
            Some(i) => Some(&self.tabs[i]),
            None => None,
        }
    }

    /// Whether no reader is open.
    pub fn is_empty(&self) -> (r: bool)
        ensures
            r == (self.view().dom() == Set::<Seq<char>>::empty()),
    {
        proof {
            use_type_invariant(self);
            if self.keys@.len() > 0 {
                assert(self.view().dom().contains(self.keys@[0]@));
            } else {
                assert(self.view().dom() =~= Set::<Seq<char>>::empty());
            }
        }
        self.keys.len() == 0
    }

    /// Record `tab` as the reader open on the document with content hash `hash`, replacing
    /// any reader recorded for it before.
    pub fn register_reader(&mut self, hash: &str, tab: T)
        ensures
            final(self).view() == old(self).view().insert(hash@, tab),
    {
        proof {
            use_type_invariant(&*self);
        }
        let ghost old_view = self.view();
        let mut taken = ReaderRegistry { keys: Vec::new(), tabs: Vec::new() };
        std::mem::swap(self, &mut taken);
        proof {
            use_type_invariant(&taken);
        }
        let ReaderRegistry { mut keys, mut tabs } = taken;
        let ghost old_keys = keys@;
        proof {
            assert(old_view == entries_view(keys@, tabs@));
        }
        match find_key(&keys, hash) {
            Some(i) => {
                tabs.set(i, tab);
                proof {
                    assert forall|k: Seq<char>| #[trigger] key_present(keys@, k) implies tabs@[index_of(keys@, k)]
                        == old_view.insert(hash@, tab)[k] by {
                        let j = index_of(keys@, k);
                        if k == hash@ {
                            assert(j == i);
                        } else {
                            assert(j != i);
                        }
                    }
                    assert(entries_view(keys@, tabs@) =~= old_view.insert(hash@, tab));
                }
            },
            None => {
                let ghost n = keys@.len();
                keys.push(hash.to_owned());
                tabs.push(tab);
                proof {
                    assert(keys@[n as int]@ == hash@);
                    assert forall|k: Seq<char>| key_present(keys@, k) == (key_present(old_keys, k) || k == hash@) by {
                        if key_present(old_keys, k) {
                            let j = choose|j: int| 0 <= j < old_keys.len() && old_keys[j]@ == k;
                            assert(keys@[j] == old_keys[j]);
                        }
                        if key_present(keys@, k) && k != hash@ {
                            let j = choose|j: int| 0 <= j < keys@.len() && keys@[j]@ == k;
                            assert(old_keys[j] == keys@[j]);
                        }
                    }
                    assert forall|a: int, b: int| 0 <= a < keys@.len() && 0 <= b < keys@.len() && a != b
                        implies #[trigger] keys@[a]@ != #[trigger] keys@[b]@ by {
                        if a < n && b < n {
                            assert(keys@[a] == old_keys[a] && keys@[b] == old_keys[b]);
                        } else if a < n {
                            assert(keys@[a] == old_keys[a]);
                        } else if b < n {
                            assert(keys@[b] == old_keys[b]);
                        }
                    }
                    assert forall|k: Seq<char>| #[trigger] key_present(keys@, k) implies tabs@[index_of(keys@, k)]
                        == old_view.insert(hash@, tab)[k] by {
                        let j = index_of(keys@, k);
                        if k == hash@ {
                            if j != n {
                                assert(old_keys[j] == keys@[j]);
                            }
                        } else {
                            let j0 = index_of(old_keys, k);
                            assert(keys@[j0] == old_keys[j0]);
                            if j != j0 {
                                assert(keys@[j]@ != keys@[j0]@);
                            }
                        }
                    }
                    assert(entries_view(keys@, tabs@) =~= old_view.insert(hash@, tab));
                }
            },
        }
        *self = ReaderRegistry { keys, tabs };
    }

    /// Forget the reader open on the document with content hash `hash`; reports whether no
    /// reader is left open afterwards.
    pub fn unregister_window(&mut self, hash: &str) -> (now_empty: bool)
        ensures
            final(self).view() == old(self).view().remove(hash@),
            now_empty == (final(self).view().dom() == Set::<Seq<char>>::empty()),
    {
        proof {
            use_type_invariant(&*self);
        }
        let ghost old_view = self.view();
        let mut taken = ReaderRegistry { keys: Vec::new(), tabs: Vec::new() };
        std::mem::swap(self, &mut taken);
        proof {
            use_type_invariant(&taken);
        }
        let ReaderRegistry { mut keys, mut tabs } = taken;
        let ghost old_keys = keys@;
        proof {
            assert(old_view == entries_view(keys@, tabs@));
        }
        match find_key(&keys, hash) {
            Some(i) => {
                keys.remove(i);
                tabs.remove(i);
                proof {
                    let ks = keys@;
                    assert forall|j: int| 0 <= j < ks.len() implies #[trigger] ks[j] == old_keys[if j < i { j } else { j + 1 }] by {}
                    assert forall|a: int, b: int| 0 <= a < ks.len() && 0 <= b < ks.len() && a != b
                        implies #[trigger] ks[a]@ != #[trigger] ks[b]@ by {
                        let a0 = if a < i { a } else { a + 1 };
                        let b0 = if b < i { b } else { b + 1 };
                        assert(ks[a] == old_keys[a0] && ks[b] == old_keys[b0]);
                    }
                    assert forall|k: Seq<char>| key_present(ks, k) == (key_present(old_keys, k) && k != hash@) by {
                        if key_present(ks, k) {
                            let j = choose|j: int| 0 <= j < ks.len() && ks[j]@ == k;
                            let j0 = if j < i { j } else { j + 1 };
                            assert(ks[j] == old_keys[j0]);
                            assert(j0 != i);
                        }
                        if key_present(old_keys, k) && k != hash@ {
                            let j0 = choose|j: int| 0 <= j < old_keys.len() && old_keys[j]@ == k;
                            assert(j0 != i);
                            let j = if j0 < i { j0 } else { j0 - 1 };
                            assert(ks[j] == old_keys[j0]);
                        }
                    }
                    assert forall|k: Seq<char>| #[trigger] key_present(ks, k) implies tabs@[index_of(ks, k)]
                        == old_view.remove(hash@)[k] by {
                        let j = index_of(ks, k);
                        let j0 = if j < i { j } else { j + 1 };
                        assert(ks[j] == old_keys[j0]);
                        let c = index_of(old_keys, k);
                        if c != j0 {
                            assert(old_keys[c]@ != old_keys[j0]@);
                        }
                    }
                    assert(entries_view(keys@, tabs@) =~= old_view.remove(hash@));
                }
            },
            None => {
                proof {
                    assert(entries_view(keys@, tabs@) =~= old_view.remove(hash@));
                }
            },
        }
        *self = ReaderRegistry { keys, tabs };
        self.is_empty()
    }
}

} // verus!

verus! {

/// Law: the reader just registered for a document is the one found for it.
pub proof fn law_register_then_get<T>(m: Map<Seq<char>, T>, hash: Seq<char>, tab: T)
    ensures
        m.insert(hash, tab).dom().contains(hash),
        m.insert(hash, tab)[hash] == tab,
{
}

/// Law: registering a reader for one document leaves every other document's reader alone.
pub proof fn law_register_keeps_others<T>(m: Map<Seq<char>, T>, hash: Seq<char>, tab: T, other: Seq<char>)
    requires
        other != hash,
    ensures
        m.insert(hash, tab).dom().contains(other) == m.dom().contains(other),
        m.dom().contains(other) ==> m.insert(hash, tab)[other] == m[other],
{
}

/// Law: unregistering a document that was just registered (and had no reader before) gives
/// back the registry as it was.
pub proof fn law_unregister_undoes_register<T>(m: Map<Seq<char>, T>, hash: Seq<char>, tab: T)
    requires
        !m.dom().contains(hash),
    ensures
        m.insert(hash, tab).remove(hash) == m,
{
    assert(m.insert(hash, tab).remove(hash) =~= m);
}

/// Law: after its reader is unregistered, a document has no reader.
pub proof fn law_unregister_then_absent<T>(m: Map<Seq<char>, T>, hash: Seq<char>)
    ensures
        !m.remove(hash).dom().contains(hash),
{
}

} // verus!
