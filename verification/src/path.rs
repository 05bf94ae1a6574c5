//! Building file-system paths from a directory and a relative name, the way `PathBuf::join`
//! does on Unix.

use vstd::prelude::*;

use crate::text::chars_of;

verus! {

/// `base` joined with `rel`: `rel` alone when it is absolute or `base` is empty, otherwise
/// `base` and `rel` with one `/` between them (none added when `base` already ends in `/`).
pub open spec fn joined(base: Seq<char>, rel: Seq<char>) -> Seq<char> {
    if rel.len() > 0 && rel[0] == '/' {
        rel
    } else if base.len() == 0 {
        rel
    } else if base.last() == '/' {
        base + rel
    } else {
        base + seq!['/'] + rel
    }
}

/// `base` joined with `rel` (see [`joined`]).
pub fn join_path(base: &str, rel: &str) -> (p: String)
    ensures
        p@ == joined(base@, rel@),
{
    let b = chars_of(base);
    let r = chars_of(rel);
    if r.len() > 0 && r[0] == '/' {
        return rel.to_owned();
    }
    if b.len() == 0 {
        return rel.to_owned();
    }
    let mut p: String = base.to_owned();
    if b[b.len() - 1] != '/' {
        p.push('/');
    }
    let mut i: usize = 0;
    while i < r.len()
        invariant
            r@ == rel@,
            i <= r@.len(),
            p@ == (if base@.last() == '/' { base@ } else { base@ + seq!['/'] }) + r@.take(i as int),
        decreases r.len() - i,
    {
        proof {
            assert(r@.take(i as int + 1) =~= r@.take(i as int).push(r@[i as int]));
        }
        p.push(r[i]);
        i = i + 1;
    }
    proof {
        assert(r@.take(i as int) =~= r@);
    }
    p
}

} // verus!
