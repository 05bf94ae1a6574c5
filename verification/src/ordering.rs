//! The order annotation lists are shown in: a stable sort of annotations by a numeric key
//! (page, or chapter position) and then their creation time, ties kept in their stored
//! order.

use vstd::prelude::*;

use crate::text::chars_of;

verus! {

/// Whether `a` sorts strictly before `b` character by character (as `String`'s ordering
/// compares UTF-8 text).
pub open spec fn lex_lt(a: Seq<char>, b: Seq<char>) -> bool
    decreases a.len(),
{
    if a.len() == 0 {
        b.len() > 0
    } else if b.len() == 0 {
        false
    } else if a[0] != b[0] {
        a[0] < b[0]
    } else {
        lex_lt(a.drop_first(), b.drop_first())
    }
}

proof fn lemma_lex_lt_irreflexive(a: Seq<char>)
    ensures
        !lex_lt(a, a),
    decreases a.len(),
{
    if a.len() > 0 {
        lemma_lex_lt_irreflexive(a.drop_first());
    }
}

proof fn lemma_lex_lt_trans(a: Seq<char>, b: Seq<char>, c: Seq<char>)
    requires
        lex_lt(a, b),
        lex_lt(b, c),
    ensures
        lex_lt(a, c),
    decreases a.len(),
{
    if a.len() > 0 && b.len() > 0 && c.len() > 0 && a[0] == b[0] && b[0] == c[0] {
        lemma_lex_lt_trans(a.drop_first(), b.drop_first(), c.drop_first());
    }
}

proof fn lemma_lex_lt_total(a: Seq<char>, b: Seq<char>)
    ensures
        lex_lt(a, b) || lex_lt(b, a) || a == b,
    decreases a.len(),
{
    if a.len() > 0 && b.len() > 0 && a[0] == b[0] {
        lemma_lex_lt_total(a.drop_first(), b.drop_first());
        if a.drop_first() == b.drop_first() {
            assert(a =~= seq![a[0]] + a.drop_first());
            assert(b =~= seq![b[0]] + b.drop_first());
        }
    } else if a.len() == 0 && b.len() == 0 {
        assert(a =~= b);
    }
}

/// Whether `a` comes before `b` in the ordinary front-to-back order of text (as `String`'s
/// ordering puts it): `a` is a proper prefix of `b`, or at the first position where the two
/// differ, `a`'s character is the smaller.
pub open spec fn front_first_lt(a: Seq<char>, b: Seq<char>) -> bool {
    ||| (a.len() < b.len() && b.take(a.len() as int) == a)
    ||| exists|k: int| 0 <= k < a.len() && k < b.len() && a.take(k) == b.take(k) && #[trigger] a[k] < b[k]
}

/// Law: [`lex_lt`] is the front-to-back order of text: it holds exactly when `a` is a proper
/// prefix of `b`, or `a` has the smaller character at the first position where they differ.
pub proof fn law_lex_lt_is_front_first_order(a: Seq<char>, b: Seq<char>)
    ensures
        lex_lt(a, b) == front_first_lt(a, b),
    decreases a.len(),
{
    if a.len() == 0 {
        assert(b.take(0) =~= a);
    } else if b.len() == 0 {
    } else if a[0] != b[0] {
        if a.len() < b.len() && b.take(a.len() as int) == a {
            assert(b.take(a.len() as int)[0] == b[0]);
        }
        assert forall|k: int| 0 <= k < a.len() && k < b.len() && a.take(k) == b.take(k) && a[k] < b[k]
            implies k == 0 by {
            if k > 0 {
                assert(a.take(k)[0] == a[0]);
                assert(b.take(k)[0] == b[0]);
            }
        }
        if a[0] < b[0] {
            assert(a.take(0) =~= b.take(0));
            assert(0 < a.len() && 0 < b.len() && a.take(0) == b.take(0) && a[0] < b[0]);
        }
    } else {
        let a1 = a.drop_first();
        let b1 = b.drop_first();
        law_lex_lt_is_front_first_order(a1, b1);
        // The prefix case.
        if a.len() < b.len() && b.take(a.len() as int) == a {
            assert(b1.take(a1.len() as int) =~= a1) by {
                assert forall|j: int| 0 <= j < a1.len() implies #[trigger] b1.take(a1.len() as int)[j] == a1[j] by {
                    assert(b.take(a.len() as int)[j + 1] == a[j + 1]);
                }
            }
        }
        if a1.len() < b1.len() && b1.take(a1.len() as int) == a1 {
            assert(b.take(a.len() as int) =~= a) by {
                assert forall|j: int| 0 <= j < a.len() implies #[trigger] b.take(a.len() as int)[j] == a[j] by {
                    if j > 0 {
                        assert(b1.take(a1.len() as int)[j - 1] == a1[j - 1]);
                    }
                }
            }
        }
        // The first-difference case.
        if exists|k: int| 0 <= k < a.len() && k < b.len() && a.take(k) == b.take(k) && #[trigger] a[k] < b[k] {
            let k = choose|k: int| 0 <= k < a.len() && k < b.len() && a.take(k) == b.take(k) && #[trigger] a[k] < b[k];
            assert(k != 0);
            assert(a1.take(k - 1) =~= b1.take(k - 1)) by {
                assert forall|j: int| 0 <= j < k - 1 implies #[trigger] a1.take(k - 1)[j] == b1.take(k - 1)[j] by {
                    assert(a.take(k)[j + 1] == b.take(k)[j + 1]);
                }
            }
            assert(a1[k - 1] == a[k]);
            assert(b1[k - 1] == b[k]);
            assert(0 <= k - 1 < a1.len() && k - 1 < b1.len() && a1.take(k - 1) == b1.take(k - 1) && a1[k - 1] < b1[k - 1]);
        }
        if exists|k: int| 0 <= k < a1.len() && k < b1.len() && a1.take(k) == b1.take(k) && #[trigger] a1[k] < b1[k] {
            let k = choose|k: int| 0 <= k < a1.len() && k < b1.len() && a1.take(k) == b1.take(k) && #[trigger] a1[k] < b1[k];
            assert(a.take(k + 1) =~= b.take(k + 1)) by {
                assert forall|j: int| 0 <= j < k + 1 implies #[trigger] a.take(k + 1)[j] == b.take(k + 1)[j] by {
                    if j > 0 {
                        assert(a1.take(k)[j - 1] == b1.take(k)[j - 1]);
                    }
                }
            }
            assert(a[k + 1] == a1[k]);
            assert(b[k + 1] == b1[k]);
            assert(0 <= k + 1 < a.len() && k + 1 < b.len() && a.take(k + 1) == b.take(k + 1) && a[k + 1] < b[k + 1]);
        }
    }
}

/// The sort key of entry `i`: a number, then a text.
pub open spec fn key_of(keys: Seq<(u64, String)>, i: int) -> (u64, Seq<char>) {
    (keys[i].0, keys[i].1@)
}

/// Whether entry `i` comes before entry `j`: a smaller number, or the same number and an
/// earlier text, or the same key and an earlier position (the sort is stable).
pub open spec fn sorts_before(keys: Seq<(u64, String)>, i: int, j: int) -> bool {
    let a = key_of(keys, i);
    let b = key_of(keys, j);
    a.0 < b.0 || (a.0 == b.0 && (lex_lt(a.1, b.1) || (a.1 == b.1 && i < j)))
}

/// `order` lists every position of `keys` once, in sorted order.
pub open spec fn is_sorted_order(keys: Seq<(u64, String)>, order: Seq<usize>) -> bool {
    &&& forall|i: int| 0 <= i < order.len() ==> (#[trigger] order[i]) < keys.len()
    &&& forall|i: int, j: int| 0 <= i < j < order.len() ==> sorts_before(keys, #[trigger] order[i] as int, #[trigger] order[j] as int)
    &&& forall|p: int| 0 <= p < keys.len() ==> #[trigger] order.contains(p as usize)
}

fn lex_lt_exec(a: &str, b: &str) -> (r: bool)
    ensures
        r == lex_lt(a@, b@),
{
    let x = chars_of(a);
    let y = chars_of(b);
    let mut i: usize = 0;
    proof {
        assert(x@.skip(0) =~= x@);
        assert(y@.skip(0) =~= y@);
    }
    while i < x.len() && i < y.len() && x[i] == y[i]
        invariant
            x@ == a@,
            y@ == b@,
            i <= x@.len(),
            i <= y@.len(),
            lex_lt(a@, b@) == lex_lt(x@.skip(i as int), y@.skip(i as int)),
        decreases x.len() - i,
    {
        proof {
            assert(x@.skip(i as int).drop_first() =~= x@.skip(i as int + 1));
            assert(y@.skip(i as int).drop_first() =~= y@.skip(i as int + 1));
        }
        i = i + 1;
    }
    proof {
        if i < x.len() {
            assert(x@.skip(i as int)[0] == x@[i as int]);
        }
        if i < y.len() {
            assert(y@.skip(i as int)[0] == y@[i as int]);
        }
    }
    if i == x.len() {
        i < y.len()
    } else if i == y.len() {
        false
    } else {
        x[i] < y[i]
    }
}

fn sorts_before_exec(keys: &Vec<(u64, String)>, i: usize, j: usize) -> (r: bool)
    requires
        i < keys@.len(),
        j < keys@.len(),
    ensures
        r == sorts_before(keys@, i as int, j as int),
{
    let a = &keys[i];
    let b = &keys[j];
    if a.0 != b.0 {
        return a.0 < b.0;
    }
    if lex_lt_exec(a.1.as_str(), b.1.as_str()) {
        return true;
    }
    if lex_lt_exec(b.1.as_str(), a.1.as_str()) {
        proof {
            lemma_lex_lt_irreflexive(a.1@);
        }
        return false;
    }
    proof {
        lemma_lex_lt_total(a.1@, b.1@);
    }
    i < j
}

proof fn lemma_sorts_before_trans(keys: Seq<(u64, String)>, i: int, j: int, k: int)
    requires
        sorts_before(keys, i, j),
        sorts_before(keys, j, k),
    ensures
        sorts_before(keys, i, k),
{
    let (a, b, c) = (key_of(keys, i), key_of(keys, j), key_of(keys, k));
    if a.0 == b.0 && b.0 == c.0 {
        if lex_lt(a.1, b.1) && lex_lt(b.1, c.1) {
            lemma_lex_lt_trans(a.1, b.1, c.1);
        }
    }
}

proof fn lemma_sorts_before_total(keys: Seq<(u64, String)>, i: int, j: int)
    requires
        i != j,
    ensures
        sorts_before(keys, i, j) || sorts_before(keys, j, i),
{
    lemma_lex_lt_total(key_of(keys, i).1, key_of(keys, j).1);
}

/// The positions of `keys` in sorted order (see [`is_sorted_order`]): by number, then by
/// text, ties in their original order.
pub fn stable_order(keys: &Vec<(u64, String)>) -> (order: Vec<usize>)
    ensures
        is_sorted_order(keys@, order@),
        order@.len() == keys@.len(),
{
    let mut order: Vec<usize> = Vec::new();
    let mut i: usize = 0;
    while i < keys.len()
        invariant
            i <= keys@.len(),
            order@.len() == i,
            forall|m: int| 0 <= m < order@.len() ==> (#[trigger] order@[m]) < i,
            forall|m: int, n: int| 0 <= m < n < order@.len() ==> sorts_before(keys@, #[trigger] order@[m] as int, #[trigger] order@[n] as int),
            forall|p: int| 0 <= p < i ==> #[trigger] order@.contains(p as usize),
        decreases keys@.len() - i,
    {
        // the first position whose entry sorts after entry i
        let mut pos: usize = 0;
        while pos < order.len() && !sorts_before_exec(keys, i, order[pos])
            invariant
                i < keys@.len(),
                pos <= order@.len(),
                forall|m: int| 0 <= m < order@.len() ==> (#[trigger] order@[m]) < i,
                forall|m: int| 0 <= m < pos ==> !sorts_before(keys@, i as int, #[trigger] order@[m] as int),
            decreases order@.len() - pos,
        {
            pos = pos + 1;
        }
        let ghost before = order@;
        proof {
            assert forall|m: int| 0 <= m < pos implies sorts_before(keys@, #[trigger] before[m] as int, i as int) by {
                lemma_sorts_before_total(keys@, before[m] as int, i as int);
            }
            assert forall|m: int| pos <= m < before.len() implies sorts_before(keys@, i as int, #[trigger] before[m] as int) by {
                if pos < before.len() {
                    assert(sorts_before(keys@, i as int, before[pos as int] as int));
                    if m > pos {
                        lemma_sorts_before_trans(keys@, i as int, before[pos as int] as int, before[m] as int);
                    }
                }
            }
        }
        order.insert(pos, i);
        proof {
            let o = order@;
            assert(o =~= before.insert(pos as int, i));
            assert forall|m: int, n: int| 0 <= m < n < o.len() implies sorts_before(keys@, #[trigger] o[m] as int, #[trigger] o[n] as int) by {
                if n < pos {
                    assert(o[m] == before[m] && o[n] == before[n]);
                } else if n == pos {
                    assert(o[m] == before[m] && o[n] == i);
                } else if m < pos {
                    assert(o[m] == before[m] && o[n] == before[n - 1]);
                    lemma_sorts_before_trans(keys@, before[m] as int, i as int, before[n - 1] as int);
                } else if m == pos {
                    assert(o[m] == i && o[n] == before[n - 1]);
                } else {
                    assert(o[m] == before[m - 1] && o[n] == before[n - 1]);
                }
            }
            assert forall|p: int| 0 <= p < i + 1 implies #[trigger] o.contains(p as usize) by {
                if p == i {
                    assert(o[pos as int] == i);
                } else {
                    assert(before.contains(p as usize));
                    let k = choose|k: int| 0 <= k < before.len() && before[k] == p as usize;
                    if k < pos {
                        assert(o[k] == before[k]);
                    } else {
                        assert(o[k + 1] == before[k]);
                    }
                }
            }
            assert forall|m: int| 0 <= m < o.len() implies (#[trigger] o[m]) < i + 1 by {
                if m < pos {
                    assert(o[m] == before[m]);
                } else if m > pos {
                    assert(o[m] == before[m - 1]);
                }
            }
        }
        i = i + 1;
    }
    order
}

/// The sort key for an annotation's optional 1-based page: unpaged annotations first, then
/// by page.
pub open spec fn page_key(page: Option<u32>) -> int {
    match page {
        None => 0,
        Some(p) => p + 1,
    }
}

/// The order the annotations dialog lists annotations in: by page (annotations without a
/// page first), ties in stored order (`sort_by_key(|a| a.page)`).
pub fn order_by_page(pages: &Vec<Option<u32>>) -> (order: Vec<usize>)
    ensures
        order@.len() == pages@.len(),
        forall|i: int| 0 <= i < order@.len() ==> (#[trigger] order@[i]) < pages@.len(),
        forall|i: int, j: int| 0 <= i < j < order@.len() ==> ({
            let a = page_key(pages@[#[trigger] order@[i] as int]);
            let b = page_key(pages@[#[trigger] order@[j] as int]);
            a < b || (a == b && order@[i] < order@[j])
        }),
        forall|p: int| 0 <= p < pages@.len() ==> #[trigger] order@.contains(p as usize),
{
    let mut keys: Vec<(u64, String)> = Vec::new();
    let mut i: usize = 0;
    while i < pages.len()
        invariant
            i <= pages@.len(),
            keys@.len() == i,
            forall|m: int| 0 <= m < i ==> (#[trigger] keys@[m]).0 == page_key(pages@[m]) && keys@[m].1@ == Seq::<char>::empty(),
        decreases pages@.len() - i,
    {
        let k: u64 = match pages[i] {
            None => 0,
            Some(p) => p as u64 + 1,
        };
        keys.push((k, String::new()));
        i = i + 1;
    }
    let order = stable_order(&keys);
    proof {
        assert forall|i: int, j: int| 0 <= i < j < order@.len() implies ({
            let a = page_key(pages@[#[trigger] order@[i] as int]);
            let b = page_key(pages@[#[trigger] order@[j] as int]);
            a < b || (a == b && order@[i] < order@[j])
        }) by {
            assert(sorts_before(keys@, order@[i] as int, order@[j] as int));
            lemma_lex_lt_irreflexive(Seq::<char>::empty());
        }
    }
    order
}

} // verus!
