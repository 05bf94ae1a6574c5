//! Lists of records keyed by a string: the History log, the launcher's recent list and the
//! Library keep at most one record per document (keyed by its content hash), and a
//! document's annotations are found and deleted by their id.

use vstd::prelude::*;

use crate::text::str_eq;

verus! {

/// A record in a keyed list.
pub trait KeyedEntry: Sized {
    /// The key that identifies this record.
    spec fn key(&self) -> Seq<char>;

    /// The key, as a string.
    fn key_str(&self) -> (k: &str)
        ensures
            k@ == self.key(),
    ;
}

/// `s` with every record whose key is `k` left out, the rest in their original order.
pub open spec fn without_key<T: KeyedEntry>(s: Seq<T>, k: Seq<char>) -> Seq<T>
    decreases s.len(),
{
    if s.len() == 0 {
        Seq::empty()
    } else {
        let rest = without_key(s.drop_last(), k);
        if s.last().key() == k {
            rest
        } else {
            rest.push(s.last())
        }
    }
}

/// Whether some record of `s` has key `k`.
pub open spec fn has_key<T: KeyedEntry>(s: Seq<T>, k: Seq<char>) -> bool {
    exists|i: int| 0 <= i < s.len() && #[trigger] s[i].key() == k
}

/// No two records of `s` share a key.
pub open spec fn keys_distinct<T: KeyedEntry>(s: Seq<T>) -> bool {
    forall|i: int, j: int|
        0 <= i < s.len() && 0 <= j < s.len() && i != j ==> #[trigger] s[i].key() != #[trigger] s[j].key()
}

/// The first `cap` records of `s` (all of them if there are no more than `cap`).
pub open spec fn capped<A>(s: Seq<A>, cap: nat) -> Seq<A> {
    if s.len() > cap {
        s.take(cap as int)
    } else {
        s
    }
}

/// `s` with `e` moved (or inserted) to the front, any other record with `e`'s key dropped,
/// and the list then cut to its first `cap` records.
pub open spec fn moved_to_front<T: KeyedEntry>(s: Seq<T>, e: T, cap: nat) -> Seq<T> {
    capped(seq![e] + without_key(s, e.key()), cap)
}

/// Every record of `without_key(s, k)` is a record of `s` whose key is not `k`, and every
/// record of `s` whose key is not `k` stays.
pub proof fn lemma_without_key_members<T: KeyedEntry>(s: Seq<T>, k: Seq<char>)
    ensures
        without_key(s, k).len() <= s.len(),
        forall|i: int|
            0 <= i < without_key(s, k).len() ==> #[trigger] without_key(s, k)[i].key() != k
                && s.contains(without_key(s, k)[i]),
        forall|i: int| 0 <= i < s.len() && #[trigger] s[i].key() != k ==> without_key(s, k).contains(s[i]),
        !has_key(without_key(s, k), k),
    decreases s.len(),
{
    if s.len() > 0 {
        let d = s.drop_last();
        lemma_without_key_members(d, k);
        let r = without_key(d, k);
        assert forall|i: int| 0 <= i < without_key(s, k).len() implies #[trigger] without_key(s, k)[i].key() != k
            && s.contains(without_key(s, k)[i]) by {
            if i < r.len() {
                assert(without_key(s, k)[i] == r[i]);
                assert(0 <= i < r.len());
                assert(r[i].key() != k);
                assert(d.contains(r[i]));
                let j = choose|j: int| 0 <= j < d.len() && d[j] == r[i];
                assert(s[j] == d[j]);
            } else {
                assert(without_key(s, k)[i] == s.last());
                assert(s[s.len() - 1] == s.last());
            }
        }
        assert forall|i: int| 0 <= i < s.len() && #[trigger] s[i].key() != k implies without_key(s, k).contains(s[i]) by {
            if i < s.len() - 1 {
                assert(d[i] == s[i]);
                assert(d[i].key() != k);
                assert(r.contains(d[i]));
                let j = choose|j: int| 0 <= j < r.len() && r[j] == d[i];
                assert(without_key(s, k)[j] == r[j]);
            } else {
                assert(s[i] == s.last());
                assert(without_key(s, k)[r.len() as int] == s.last());
            }
        }
        if has_key(without_key(s, k), k) {
            let i = choose|i: int| 0 <= i < without_key(s, k).len() && #[trigger] without_key(s, k)[i].key() == k;
            assert(false);
        }
    }
}

/// Dropping a key that no record has leaves the list as it was.
pub proof fn lemma_without_absent_key<T: KeyedEntry>(s: Seq<T>, k: Seq<char>)
    requires
        !has_key(s, k),
    ensures
        without_key(s, k) == s,
    decreases s.len(),
{
    if s.len() > 0 {
        let d = s.drop_last();
        if has_key(d, k) {
            let i = choose|i: int| 0 <= i < d.len() && #[trigger] d[i].key() == k;
            assert(s[i] == d[i]);
        }
        lemma_without_absent_key(d, k);
        assert(s[s.len() - 1] == s.last());
        assert(d.push(s.last()) =~= s);
    }
}

/// Removing a key twice leaves what removing it once leaves: a second removal (of a Library
/// document, of a deleted annotation) changes nothing.
pub proof fn law_without_key_idempotent<T: KeyedEntry>(s: Seq<T>, k: Seq<char>)
    ensures
        without_key(without_key(s, k), k) == without_key(s, k),
{
    lemma_without_key_members(s, k);
    lemma_without_absent_key(without_key(s, k), k);
}

/// Dropping a key from a list that starts with `a` drops `a` when it has that key and keeps
/// it in front otherwise.
pub proof fn lemma_without_key_cons<T: KeyedEntry>(a: T, x: Seq<T>, k: Seq<char>)
    ensures
        without_key(seq![a] + x, k) == (if a.key() == k {
            without_key(x, k)
        } else {
            seq![a] + without_key(x, k)
        }),
    decreases x.len(),
{
    if x.len() == 0 {
        assert(seq![a] + x =~= seq![a]);
        assert(seq![a].drop_last() =~= Seq::<T>::empty());
        assert(seq![a].last() == a);
        assert(without_key(Seq::<T>::empty(), k) =~= Seq::<T>::empty());
        assert(without_key(x, k) =~= Seq::<T>::empty());
        assert(Seq::<T>::empty().push(a) =~= seq![a] + Seq::<T>::empty());
    } else {
        assert((seq![a] + x).drop_last() =~= seq![a] + x.drop_last());
        assert((seq![a] + x).last() == x.last());
        lemma_without_key_cons(a, x.drop_last(), k);
        if a.key() != k {
            assert((seq![a] + without_key(x.drop_last(), k)).push(x.last())
                =~= seq![a] + without_key(x.drop_last(), k).push(x.last()));
        }
    }
}

/// Dropping a key keeps the remaining records' keys distinct.
pub proof fn lemma_without_key_distinct<T: KeyedEntry>(s: Seq<T>, k: Seq<char>)
    requires
        keys_distinct(s),
    ensures
        keys_distinct(without_key(s, k)),
    decreases s.len(),
{
    if s.len() > 0 {
        let d = s.drop_last();
        assert(keys_distinct(d)) by {
            assert forall|i: int, j: int| 0 <= i < d.len() && 0 <= j < d.len() && i != j
                implies #[trigger] d[i].key() != #[trigger] d[j].key() by {
                assert(d[i] == s[i] && d[j] == s[j]);
            }
        }
        lemma_without_key_distinct(d, k);
        lemma_without_key_members(d, k);
        let r = without_key(d, k);
        if s.last().key() != k {
            let w = r.push(s.last());
            assert forall|i: int, j: int| 0 <= i < w.len() && 0 <= j < w.len() && i != j
                implies #[trigger] w[i].key() != #[trigger] w[j].key() by {
                if i < r.len() && j < r.len() {
                    assert(w[i] == r[i] && w[j] == r[j]);
                } else if i < r.len() {
                    assert(w[i] == r[i]);
                    assert(r[i].key() != k);
                    assert(d.contains(r[i]));
                    let m = choose|m: int| 0 <= m < d.len() && d[m] == r[i];
                    assert(s[m] == d[m]);
                    assert(s[s.len() - 1] == s.last());
                } else {
                    assert(w[j] == r[j]);
                    assert(r[j].key() != k);
                    assert(d.contains(r[j]));
                    let m = choose|m: int| 0 <= m < d.len() && d[m] == r[j];
                    assert(s[m] == d[m]);
                    assert(s[s.len() - 1] == s.last());
                }
            }
        }
    }
}

/// Law: after moving `e` to the front (with room for at least one record), `e` comes first,
/// the list holds at most `cap` records, and no other record has `e`'s key.
pub proof fn law_move_to_front_first<T: KeyedEntry>(s: Seq<T>, e: T, cap: nat)
    requires
        cap >= 1,
    ensures
        moved_to_front(s, e, cap).len() >= 1,
        moved_to_front(s, e, cap)[0] == e,
        moved_to_front(s, e, cap).len() <= cap,
        forall|i: int|
            1 <= i < moved_to_front(s, e, cap).len() ==> #[trigger] moved_to_front(s, e, cap)[i].key()
                != e.key(),
{
    lemma_without_key_members(s, e.key());
    let w = without_key(s, e.key());
    let m = moved_to_front(s, e, cap);
    assert forall|i: int| 1 <= i < m.len() implies #[trigger] m[i].key() != e.key() by {
        assert(m[i] == (seq![e] + w)[i]);
        assert((seq![e] + w)[i] == w[i - 1]);
    }
}

/// Law: moving the same record to the front twice leaves the list as moving it once did.
pub proof fn law_move_to_front_idempotent<T: KeyedEntry>(s: Seq<T>, e: T, cap: nat)
    requires
        cap >= 1,
    ensures
        moved_to_front(moved_to_front(s, e, cap), e, cap) == moved_to_front(s, e, cap),
{
    let k = e.key();
    lemma_without_key_members(s, k);
    let w = without_key(s, k);
    let m = moved_to_front(s, e, cap);
    let tail = m.skip(1);
    assert(m =~= seq![e] + tail) by {
        if w.len() + 1 > cap {
            assert(m =~= (seq![e] + w).take(cap as int));
        }
    }
    assert(!has_key(tail, k)) by {
        if has_key(tail, k) {
            let i = choose|i: int| 0 <= i < tail.len() && #[trigger] tail[i].key() == k;
            if w.len() + 1 > cap {
                assert(tail[i] == (seq![e] + w)[i + 1]);
            } else {
                assert(tail[i] == (seq![e] + w)[i + 1]);
            }
            assert((seq![e] + w)[i + 1] == w[i]);
        }
    }
    lemma_without_key_cons(e, tail, k);
    lemma_without_absent_key(tail, k);
    assert(without_key(m, k) == tail);
    assert(seq![e] + tail =~= m);
    assert(m.len() <= cap);
}

/// Law: when no two records of `s` share a key, neither do any two of `s` with `e` moved to
/// its front.
pub proof fn law_move_to_front_keys_distinct<T: KeyedEntry>(s: Seq<T>, e: T, cap: nat)
    requires
        keys_distinct(s),
    ensures
        keys_distinct(moved_to_front(s, e, cap)),
{
    let k = e.key();
    lemma_without_key_members(s, k);
    lemma_without_key_distinct(s, k);
    let w = without_key(s, k);
    let full = seq![e] + w;
    assert(keys_distinct(full)) by {
        assert forall|i: int, j: int| 0 <= i < full.len() && 0 <= j < full.len() && i != j
            implies #[trigger] full[i].key() != #[trigger] full[j].key() by {
            if i == 0 {
                assert(full[j] == w[j - 1]);
            } else if j == 0 {
                assert(full[i] == w[i - 1]);
            } else {
                assert(full[i] == w[i - 1] && full[j] == w[j - 1]);
            }
        }
    }
    let m = moved_to_front(s, e, cap);
    assert forall|i: int, j: int| 0 <= i < m.len() && 0 <= j < m.len() && i != j
        implies #[trigger] m[i].key() != #[trigger] m[j].key() by {
        assert(m[i] == full[i] && m[j] == full[j]);
    }
}

/// Remove every record keyed `key` from `v`, keeping the others in order.
pub fn remove_key<T: KeyedEntry>(v: &mut Vec<T>, key: &str)
    ensures
        final(v)@ == without_key(old(v)@, key@),
{
    let ghost orig = v@;
    let ghost k = key@;
    let mut i: usize = 0;
    let ghost mut j: int = 0;
    proof {
        assert(orig.take(0) =~= Seq::<T>::empty());
        assert(orig.skip(0) =~= orig);
        assert(without_key(orig.take(0), k) =~= Seq::<T>::empty());
    }
    while i < v.len()
        invariant
            0 <= j <= orig.len(),
            k == key@,
            i == without_key(orig.take(j), k).len(),
            v@ == without_key(orig.take(j), k) + orig.skip(j),
        decreases orig.len() - j,
    {
        proof {
            if j == orig.len() {
                assert(orig.skip(j) =~= Seq::<T>::empty());
                assert(v@.len() == i);
            }
            assert(v@[i as int] == orig[j]);
            assert(orig.take(j + 1).drop_last() =~= orig.take(j));
            assert(orig.take(j + 1).last() == orig[j]);
        }
        if str_eq(v[i].key_str(), key) {
            v.remove(i);
            proof {
                assert(v@ =~= without_key(orig.take(j + 1), k) + orig.skip(j + 1));
            }
        } else {
            proof {
                assert(v@ =~= without_key(orig.take(j + 1), k) + orig.skip(j + 1));
            }
            i = i + 1;
        }
        proof {
            j = j + 1;
        }
    }
    proof {
        if j < orig.len() {
            assert(v@.len() == i + orig.skip(j).len());
        }
        assert(orig.take(j) =~= orig);
        assert(orig.skip(j) =~= Seq::<T>::empty());
        assert(v@ =~= without_key(orig, k));
    }
}

/// Whether some record of `v` is keyed `key`.
pub fn contains_key<T: KeyedEntry>(v: &Vec<T>, key: &str) -> (r: bool)
    ensures
        r == has_key(v@, key@),
{
    let mut i: usize = 0;
    while i < v.len()
        invariant
            i <= v.len(),
            forall|m: int| 0 <= m < i ==> #[trigger] v@[m].key() != key@,
        decreases v.len() - i,
    {
        if str_eq(v[i].key_str(), key) {
            return true;
        }
        i = i + 1;
    }
    false
}

/// Move (or insert) `e` to the front of `v`, dropping any other record with its key, and
/// cut `v` to its first `cap` records.
pub fn move_to_front<T: KeyedEntry>(v: &mut Vec<T>, e: T, cap: usize)
    ensures
        final(v)@ == moved_to_front(old(v)@, e, cap as nat),
{
    remove_key(v, e.key_str());
    let ghost removed = v@;
    v.insert(0, e);
    proof {
        assert(v@ =~= seq![e] + removed);
    }
    v.truncate(cap);
}

} // verus!
