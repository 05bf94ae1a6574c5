//! Whole-book search in the EPUB reader: a case-insensitive substring search over every
//! chapter's plain text (text and query both lowercased whole), with up to fifty characters
//! of context either side of each hit, trimmed to whitespace where that cuts a word.
//!
//! To report a hit found in the lowercased text against the text as written, each character
//! is also lowercased on its own: every character of the lowercased text is attributed to
//! the character whose lowercase form it lies in, so a character whose lowercase form is
//! longer (`İ` lowercases to `i̇`) still gives a well-placed hit. The excerpt's match range is
//! in bytes of the excerpt.

use vstd::prelude::*;
use vstd::utf8::encode_utf8;

use crate::text::{
    char_is_whitespace, chars_of, is_blank, is_whitespace, lowercase, str_lowercase, string_of_range, trim,
};

verus! {

/// The most hits a whole-book search returns.
pub const EPUB_WHOLE_BOOK_MATCH_LIMIT: usize = 200;

/// How many characters of context a hit carries on each side.
pub const CONTEXT_CHARS: usize = 50;

/// One whole-book search hit: the chapter (spine index) it is in, an excerpt around it, and
/// the byte range of the match within the excerpt.
pub struct WholeBookMatch {
    pub chapter: usize,
    pub snippet: String,
    pub match_start: usize,
    pub match_end: usize,
}

/// Where a hit lies in its chapter's text, in characters: the excerpt `start..stop` and the
/// match `idx..end`.
pub struct HitView {
    pub start: int,
    pub stop: int,
    pub idx: int,
    pub end: int,
}

/// Each character of `s` lowercased on its own.
pub open spec fn lowered_chars(s: Seq<char>) -> Seq<Seq<char>> {
    Seq::new(s.len(), |i: int| str_lowercase(seq![s[i]]))
}

/// The pieces `p` put one after the other.
pub open spec fn joined(p: Seq<Seq<char>>) -> Seq<char>
    decreases p.len(),
{
    if p.len() == 0 {
        Seq::empty()
    } else {
        joined(p.drop_last()) + p.last()
    }
}

/// For each character of `joined(p)`, the index of the piece it comes from.
pub open spec fn origins(p: Seq<Seq<char>>) -> Seq<int>
    decreases p.len(),
{
    if p.len() == 0 {
        Seq::empty()
    } else {
        origins(p.drop_last()) + Seq::new(p.last().len(), |i: int| p.len() - 1)
    }
}

/// Every character of `joined(p)` has an origin; origins are piece indices and never go
/// backwards.
pub proof fn lemma_origins(p: Seq<Seq<char>>)
    ensures
        origins(p).len() == joined(p).len(),
        forall|j: int| 0 <= j < origins(p).len() ==> 0 <= #[trigger] origins(p)[j] < p.len(),
        forall|i: int, j: int| 0 <= i <= j < origins(p).len() ==> #[trigger] origins(p)[i] <= #[trigger] origins(p)[j],
    decreases p.len(),
{
    if p.len() > 0 {
        lemma_origins(p.drop_last());
    }
}

/// Whether `n` occurs in `h` at position `p`.
pub open spec fn occurs_at(h: Seq<char>, n: Seq<char>, p: int) -> bool {
    0 <= p && p + n.len() <= h.len() && h.subrange(p, p + n.len()) == n
}

/// The first position at or after `from` where `n` occurs in `h`.
pub open spec fn find_from(h: Seq<char>, n: Seq<char>, from: int) -> Option<int> {
    if exists|p: int| from <= p && occurs_at(h, n, p) {
        Some(choose|p: int| from <= p && occurs_at(h, n, p) && forall|q: int| from <= q < p ==> !occurs_at(h, n, q))
    } else {
        None
    }
}

/// The first position in `from..to` of `t` holding whitespace.
pub open spec fn first_space(t: Seq<char>, from: int, to: int) -> Option<int> {
    if exists|k: int| from <= k < to && is_whitespace(#[trigger] t[k]) {
        Some(choose|k: int| from <= k < to && is_whitespace(#[trigger] t[k]) && forall|j: int| from <= j < k ==> !is_whitespace(#[trigger] t[j]))
    } else {
        None
    }
}

/// The last position in `from..to` of `t` holding whitespace.
pub open spec fn last_space(t: Seq<char>, from: int, to: int) -> Option<int> {
    if exists|k: int| from <= k < to && is_whitespace(#[trigger] t[k]) {
        Some(choose|k: int| from <= k < to && is_whitespace(#[trigger] t[k]) && forall|j: int| k < j < to ==> !is_whitespace(#[trigger] t[j]))
    } else {
        None
    }
}

/// Where the excerpt before a match starting at character `s` begins: [`CONTEXT_CHARS`]
/// characters back (or the start of the text). When that cuts a word (the character before
/// it is not whitespace), it moves to just after the first whitespace before the match, if
/// there is one.
pub open spec fn excerpt_start(t: Seq<char>, s: int) -> int {
    let s0 = if s >= CONTEXT_CHARS { s - CONTEXT_CHARS } else { 0 };
    if s0 == 0 || is_whitespace(t[s0 - 1]) {
        s0
    } else {
        match first_space(t, s0, s) {
            Some(k) => k + 1,
            None => s0,
        }
    }
}

/// Where the excerpt after a match ending at character `e` stops: [`CONTEXT_CHARS`]
/// characters on (or the end of the text). When that cuts a word (the character there is
/// not whitespace), it moves back to the last whitespace after the match, if there is one.
pub open spec fn excerpt_stop(t: Seq<char>, e: int) -> int {
    let e0 = if e + CONTEXT_CHARS <= t.len() { e + CONTEXT_CHARS } else { t.len() as int };
    if e0 == t.len() || is_whitespace(t[e0]) {
        e0
    } else {
        match last_space(t, e, e0) {
            Some(k) => k,
            None => e0,
        }
    }
}

/// The hit for an occurrence at `a..b` of the lowercased text whose origins are `o`, in
/// text `t`: the match is the characters that produced `a..b` (for an empty occurrence, the
/// empty range at the character at `a`), within the excerpt around it.
pub open spec fn hit_at(t: Seq<char>, o: Seq<int>, a: int, b: int) -> HitView {
    let s = if a < o.len() { o[a] } else { t.len() as int };
    let e = if b > a { o[b - 1] + 1 } else { s };
    HitView { start: excerpt_start(t, s), stop: excerpt_stop(t, e), idx: s, end: e }
}

/// The text searched in a chapter: its lowercased text `lowered`, whenever that has as
/// many characters as its characters lowercased one by one (`pieces`) put together, so that
/// each of its characters has an origin; otherwise those pieces put together.
pub open spec fn haystack(pieces: Seq<Seq<char>>, lowered: Seq<char>) -> Seq<char> {
    if lowered.len() == joined(pieces).len() {
        lowered
    } else {
        joined(pieces)
    }
}

/// The hits in chapter text `t` whose searched text is `h` with origins `o`, for lowercased
/// query `n`, searching from position `from` of `h` and stopping after `fuel` hits: each
/// next hit is the first occurrence of `n` at or after the end of the previous one.
#[verifier::opaque]
pub open spec fn chapter_hits(t: Seq<char>, h: Seq<char>, o: Seq<int>, n: Seq<char>, from: int, fuel: nat) -> Seq<HitView>
    decreases fuel,
{
    if fuel == 0 {
        Seq::empty()
    } else {
        match find_from(h, n, from) {
            None => Seq::empty(),
            Some(a) => seq![hit_at(t, o, a, a + n.len())] + chapter_hits(t, h, o, n, a + n.len(), (fuel - 1) as nat),
        }
    }
}

/// The hits of chapter text `t`, given its lowercased text `lowered` and each of its
/// characters lowercased (`pieces`).
pub open spec fn text_hits(t: Seq<char>, pieces: Seq<Seq<char>>, lowered: Seq<char>, n: Seq<char>, fuel: nat) -> Seq<HitView> {
    chapter_hits(t, haystack(pieces, lowered), origins(pieces), n, 0, fuel)
}

/// The hits of chapters `c..` of `ts`, at most `remaining` in all, each tagged with its
/// chapter.
#[verifier::opaque]
pub open spec fn book_hits(ts: Seq<Seq<char>>, n: Seq<char>, c: int, remaining: nat) -> Seq<(int, HitView)>
    decreases ts.len() - c,
{
    if c < 0 || c >= ts.len() || remaining == 0 {
        Seq::empty()
    } else {
        let found = text_hits(ts[c], lowered_chars(ts[c]), str_lowercase(ts[c]), n, remaining);
        let left: nat = if found.len() <= remaining { (remaining - found.len()) as nat } else { 0 };
        Seq::new(found.len(), |i: int| (c, found[i])) + book_hits(ts, n, c + 1, left)
    }
}

/// The characters of each text.
pub open spec fn texts_chars(texts: Seq<String>) -> Seq<Seq<char>> {
    Seq::new(texts.len(), |i: int| texts[i]@)
}

/// The characters of each piece.
pub open spec fn pieces_view(p: Seq<String>) -> Seq<Seq<char>> {
    Seq::new(p.len(), |i: int| p[i]@)
}

/// Whether search result `m` is hit `hit` of chapter `c`, whose text is `t`: the excerpt is
/// the text's characters `start..stop`, and the match range is given in bytes of it.
pub open spec fn describes(m: WholeBookMatch, c: int, t: Seq<char>, hit: HitView) -> bool {
    &&& m.chapter == c
    &&& m.snippet@ == t.subrange(hit.start, hit.stop)
    &&& m.match_start == encode_utf8(t.subrange(hit.start, hit.idx)).len() as usize
    &&& m.match_end == encode_utf8(t.subrange(hit.start, hit.end)).len() as usize
}

/// An excerpt reaches no further than its context allows and still holds the match.
proof fn lemma_excerpt(t: Seq<char>, s: int, e: int)
    requires
        0 <= s <= e <= t.len(),
    ensures
        0 <= excerpt_start(t, s) <= s,
        e <= excerpt_stop(t, e) <= t.len(),
{
    let s0 = if s >= CONTEXT_CHARS { s - CONTEXT_CHARS } else { 0 };
    if exists|k: int| s0 <= k < s && is_whitespace(#[trigger] t[k]) {
        let k = choose|k: int| s0 <= k < s && is_whitespace(#[trigger] t[k]) && forall|j: int| s0 <= j < k ==> !is_whitespace(#[trigger] t[j]);
        assert(first_space(t, s0, s) == Some(k));
    }
    let e0 = if e + CONTEXT_CHARS <= t.len() { e + CONTEXT_CHARS } else { t.len() as int };
    if exists|k: int| e <= k < e0 && is_whitespace(#[trigger] t[k]) {
        let k = choose|k: int| e <= k < e0 && is_whitespace(#[trigger] t[k]) && forall|j: int| k < j < e0 ==> !is_whitespace(#[trigger] t[j]);
        assert(last_space(t, e, e0) == Some(k));
    }
}

/// A hit's positions lie within the text, in order.
proof fn lemma_hit_in_range(t: Seq<char>, p: Seq<Seq<char>>, h: Seq<char>, n: Seq<char>, a: int)
    requires
        occurs_at(h, n, a),
        h.len() == joined(p).len(),
        t.len() == p.len(),
    ensures
        ({
            let hit = hit_at(t, origins(p), a, a + n.len());
            0 <= hit.start <= hit.idx <= hit.end <= hit.stop <= t.len()
        }),
{
    lemma_origins(p);
    let o = origins(p);
    if n.len() > 0 {
        assert(o[a] <= o[a + n.len() - 1]);
    }
    let s = if a < o.len() { o[a] } else { t.len() as int };
    let e = if a + n.len() > a { o[a + n.len() - 1] + 1 } else { s };
    lemma_excerpt(t, s, e);
}

proof fn lemma_chapter_hits_step(t: Seq<char>, h: Seq<char>, o: Seq<int>, n: Seq<char>, from: int, fuel: nat)
    ensures
        fuel == 0 ==> chapter_hits(t, h, o, n, from, fuel) == Seq::<HitView>::empty(),
        fuel > 0 && find_from(h, n, from) is None ==> chapter_hits(t, h, o, n, from, fuel) == Seq::<HitView>::empty(),
        fuel > 0 && find_from(h, n, from) is Some ==> chapter_hits(t, h, o, n, from, fuel) == seq![
            hit_at(t, o, find_from(h, n, from)->0, find_from(h, n, from)->0 + n.len()),
        ] + chapter_hits(t, h, o, n, find_from(h, n, from)->0 + n.len(), (fuel - 1) as nat),
{
    reveal(chapter_hits);
}

fn first_space_exec(t: &Vec<char>, from: usize, to: usize) -> (r: Option<usize>)
    requires
        from <= to <= t@.len(),
    ensures
        match r {
            Some(k) => first_space(t@, from as int, to as int) == Some(k as int),
            None => first_space(t@, from as int, to as int) is None,
        },
{
    let mut k: usize = from;
    while k < to
        invariant
            from <= k <= to <= t@.len(),
            forall|j: int| from <= j < k ==> !is_whitespace(#[trigger] t@[j]),
        decreases to - k,
    {
        if char_is_whitespace(t[k]) {
            proof {
                let c = choose|c: int| from <= c < to && is_whitespace(#[trigger] t@[c]) && forall|j: int| from <= j < c ==> !is_whitespace(#[trigger] t@[j]);
                if c > k {
                    assert(!is_whitespace(t@[k as int]));
                }
            }
            return Some(k);
        }
        k = k + 1;
    }
    None
}

fn last_space_exec(t: &Vec<char>, from: usize, to: usize) -> (r: Option<usize>)
    requires
        from <= to <= t@.len(),
    ensures
        match r {
            Some(k) => last_space(t@, from as int, to as int) == Some(k as int),
            None => last_space(t@, from as int, to as int) is None,
        },
{
    let mut k: usize = to;
    while k > from
        invariant
            from <= k <= to <= t@.len(),
            forall|j: int| k <= j < to ==> !is_whitespace(#[trigger] t@[j]),
        decreases k - from,
    {
        if char_is_whitespace(t[k - 1]) {
            proof {
                let c = choose|c: int| from <= c < to && is_whitespace(#[trigger] t@[c]) && forall|j: int| c < j < to ==> !is_whitespace(#[trigger] t@[j]);
                if c < k - 1 {
                    assert(!is_whitespace(t@[k - 1]));
                }
            }
            return Some(k - 1);
        }
        k = k - 1;
    }
    None
}

fn excerpt_start_exec(t: &Vec<char>, s: usize) -> (r: usize)
    requires
        s <= t@.len(),
    ensures
        r == excerpt_start(t@, s as int),
{
    let s0: usize = if s >= CONTEXT_CHARS { s - CONTEXT_CHARS } else { 0 };
    if s0 == 0 || char_is_whitespace(t[s0 - 1]) {
        s0
    } else {
        match first_space_exec(t, s0, s) {
            Some(k) => k + 1,
            None => s0,
        }
    }
}

fn excerpt_stop_exec(t: &Vec<char>, e: usize) -> (r: usize)
    requires
        e <= t@.len(),
    ensures
        r == excerpt_stop(t@, e as int),
{
    let e0: usize = if t.len() - e >= CONTEXT_CHARS { e + CONTEXT_CHARS } else { t.len() };
    if e0 == t.len() || char_is_whitespace(t[e0]) {
        e0
    } else {
        match last_space_exec(t, e, e0) {
            Some(k) => k,
            None => e0,
        }
    }
}

fn occurs_at_exec(h: &Vec<char>, n: &Vec<char>, p: usize) -> (r: bool)
    requires
        p + n@.len() <= h@.len(),
    ensures
        r == occurs_at(h@, n@, p as int),
{
    let hl = h.len();
    let mut i: usize = 0;
    while i < n.len()
        invariant
            hl == h@.len(),
            p + n@.len() <= h@.len(),
            i <= n@.len(),
            forall|j: int| 0 <= j < i ==> h@[p + j] == n@[j],
        decreases n.len() - i,
    {
        if h[p + i] != n[i] {
            proof {
                assert(h@.subrange(p as int, p + n@.len())[i as int] != n@[i as int]);
            }
            return false;
        }
        i = i + 1;
    }
    proof {
        assert(h@.subrange(p as int, p + n@.len()) =~= n@);
    }
    true
}

fn find_from_exec(h: &Vec<char>, n: &Vec<char>, from: usize) -> (r: Option<usize>)
    ensures
        match r {
            Some(p) => find_from(h@, n@, from as int) == Some(p as int) && occurs_at(h@, n@, p as int),
            None => find_from(h@, n@, from as int) is None,
        },
{
    if n.len() > h.len() {
        proof {
            assert forall|p: int| from <= p implies !occurs_at(h@, n@, p) by {}
        }
        return None;
    }
    let last = h.len() - n.len();
    if from > last {
        proof {
            assert forall|p: int| from <= p implies !occurs_at(h@, n@, p) by {}
        }
        return None;
    }
    let mut p: usize = from;
    while p < last
        invariant
            last == h@.len() - n@.len(),
            from <= p <= last,
            forall|q: int| from <= q < p ==> !occurs_at(h@, n@, q),
        decreases last - p,
    {
        if occurs_at_exec(h, n, p) {
            proof {
                let c = choose|c: int| from <= c && occurs_at(h@, n@, c) && forall|q: int| from <= q < c ==> !occurs_at(h@, n@, q);
                if c > p {
                    assert(!occurs_at(h@, n@, p as int));
                }
            }
            return Some(p);
        }
        p = p + 1;
    }
    if occurs_at_exec(h, n, p) {
        proof {
            let c = choose|c: int| from <= c && occurs_at(h@, n@, c) && forall|q: int| from <= q < c ==> !occurs_at(h@, n@, q);
            if c > p {
                assert(!occurs_at(h@, n@, p as int));
            }
        }
        return Some(p);
    }
    proof {
        assert forall|q: int| from <= q implies !occurs_at(h@, n@, q) by {
            if q > p {
                assert(q + n@.len() > h@.len());
            }
        }
    }
    None
}

/// The characters of `pieces` one after the other, with the index of the piece each came
/// from.
fn join_with_origins(pieces: &Vec<String>) -> (r: (Vec<char>, Vec<usize>))
    ensures
        r.0@ == joined(pieces_view(pieces@)),
        r.1@.len() == origins(pieces_view(pieces@)).len(),
        forall|j: int| 0 <= j < r.1@.len() ==> r.1@[j] as int == #[trigger] origins(pieces_view(pieces@))[j],
{
    let ghost pv = pieces_view(pieces@);
    let mut h: Vec<char> = Vec::new();
    let mut o: Vec<usize> = Vec::new();
    let mut k: usize = 0;
    proof {
        assert(pv.take(0) =~= Seq::<Seq<char>>::empty());
    }
    while k < pieces.len()
        invariant
            pv == pieces_view(pieces@),
            k <= pieces@.len(),
            h@ == joined(pv.take(k as int)),
            o@.len() == origins(pv.take(k as int)).len(),
            forall|j: int| 0 <= j < o@.len() ==> o@[j] as int == #[trigger] origins(pv.take(k as int))[j],
        decreases pieces@.len() - k,
    {
        let piece = chars_of(pieces[k].as_str());
        let ghost h0 = h@;
        let ghost o0 = origins(pv.take(k as int));
        let mut i: usize = 0;
        while i < piece.len()
            invariant
                k < pieces@.len(),
                h@ == h0 + piece@.take(i as int),
                i <= piece@.len(),
                o@.len() == o0.len() + i,
                forall|j: int| 0 <= j < o0.len() ==> o@[j] as int == #[trigger] o0[j],
                forall|j: int| o0.len() <= j < o@.len() ==> #[trigger] o@[j] == k,
            decreases piece@.len() - i,
        {
            proof {
                assert(piece@.take(i as int + 1) =~= piece@.take(i as int).push(piece@[i as int]));
            }
            h.push(piece[i]);
            o.push(k);
            i = i + 1;
        }
        proof {
            let t1 = pv.take(k as int + 1);
            assert(t1.drop_last() =~= pv.take(k as int));
            assert(t1.last() == piece@);
            assert(piece@.take(i as int) =~= piece@);
            assert forall|j: int| 0 <= j < o@.len() implies o@[j] as int == #[trigger] origins(t1)[j] by {
                if j < o0.len() {
                    assert(o@[j] as int == o0[j]);
                }
            }
        }
        k = k + 1;
    }
    proof {
        assert(pv.take(k as int) =~= pv);
    }
    (h, o)
}

/// The hits of chapter `chapter`, whose text is `text`, whose lowercased text is `lowered`
/// and whose characters lowercased one by one are `pieces`, for the lowercased query
/// `needle`, at most `fuel` of them (see [`text_hits`]), as search results.
#[verifier::rlimit(60)]
pub fn chapter_matches(
    chapter: usize,
    text: &str,
    pieces: &Vec<String>,
    lowered: &str,
    needle: &str,
    fuel: usize,
) -> (v: Vec<WholeBookMatch>)
    requires
        pieces@.len() == text@.len(),
    ensures
        v@.len() == text_hits(text@, pieces_view(pieces@), lowered@, needle@, fuel as nat).len(),
        v@.len() <= fuel,
        forall|i: int| 0 <= i < v@.len() ==> describes(
            #[trigger] v@[i],
            chapter as int,
            text@,
            text_hits(text@, pieces_view(pieces@), lowered@, needle@, fuel as nat)[i],
        ),
{
    let t = chars_of(text);
    let n = chars_of(needle);
    let (joined_pieces, o) = join_with_origins(pieces);
    let lowered_chars = chars_of(lowered);
    let h = if lowered_chars.len() == joined_pieces.len() { lowered_chars } else { joined_pieces };
    let ghost pv = pieces_view(pieces@);
    let ghost oo = origins(pv);
    proof {
        lemma_origins(pv);
    }
    let tl = t.len();
    let hl = h.len();
    let mut out: Vec<WholeBookMatch> = Vec::new();
    let mut from: usize = 0;
    let mut left: usize = fuel;
    let ghost mut done: Seq<HitView> = Seq::empty();
    while left > 0
        invariant
            t@ == text@,
            tl == t@.len(),
            hl == h@.len(),
            pv == pieces_view(pieces@),
            n@ == needle@,
            pv.len() == t@.len(),
            h@ == haystack(pv, lowered@),
            h@.len() == joined(pv).len(),
            oo == origins(pv),
            o@.len() == oo.len(),
            oo.len() == joined(pv).len(),
            forall|j: int| 0 <= j < o@.len() ==> o@[j] as int == #[trigger] oo[j],
            forall|j: int| 0 <= j < oo.len() ==> 0 <= #[trigger] oo[j] < pv.len(),
            left <= fuel,
            out@.len() == done.len(),
            done.len() + left == fuel,
            forall|i: int| 0 <= i < done.len() ==> describes(#[trigger] out@[i], chapter as int, text@, done[i]),
            chapter_hits(t@, h@, oo, n@, 0, fuel as nat) == done + chapter_hits(t@, h@, oo, n@, from as int, left as nat),
        decreases left,
    {
        proof {
            lemma_chapter_hits_step(t@, h@, oo, n@, from as int, left as nat);
        }
        match find_from_exec(&h, &n, from) {
            None => {
                proof {
                    assert(done + Seq::<HitView>::empty() =~= done);
                    assert(chapter_hits(t@, h@, oo, n@, 0, fuel as nat) == done);
                }
                return out;
            },
            Some(a) => {
                let b = a + n.len();
                let ghost hit = hit_at(t@, oo, a as int, b as int);
                proof {
                    lemma_hit_in_range(t@, pv, h@, n@, a as int);
                    if b > a {
                        assert(o@[b - 1] as int == oo[b - 1]);
                        assert(oo[b - 1] < tl);
                    }
                }
                let s: usize = if a < o.len() { o[a] } else { t.len() };
                let e: usize = if b > a { o[b - 1] + 1 } else { s };
                let start = excerpt_start_exec(&t, s);
                let stop = excerpt_stop_exec(&t, e);
                proof {
                    assert(s == hit.idx && e == hit.end && start == hit.start && stop == hit.stop);
                }
                let snippet = string_of_range(&t, start, stop);
                let before = string_of_range(&t, start, s);
                let through = string_of_range(&t, start, e);
                let m = WholeBookMatch {
                    chapter,
                    snippet,
                    match_start: before.as_str().len(),
                    match_end: through.as_str().len(),
                };
                let ghost prev_out = out@;
                proof {
                    assert(describes(m, chapter as int, text@, hit));
                    assert(done + (seq![hit] + chapter_hits(t@, h@, oo, n@, b as int, (left - 1) as nat))
                        =~= done.push(hit) + chapter_hits(t@, h@, oo, n@, b as int, (left - 1) as nat));
                }
                out.push(m);
                proof {
                    done = done.push(hit);
                    assert forall|i: int| 0 <= i < done.len() implies describes(#[trigger] out@[i], chapter as int, text@, done[i]) by {
                        if i < done.len() - 1 {
                            assert(out@[i] == prev_out[i]);
                        }
                    }
                }
                from = b;
                left = left - 1;
            },
        }
    }
    proof {
        lemma_chapter_hits_step(t@, h@, oo, n@, from as int, left as nat);
        assert(done + Seq::<HitView>::empty() =~= done);
    }
    out
}

/// Each character of `s` lowercased on its own (see [`lowered_chars`]).
pub fn lowered_pieces(s: &str) -> (p: Vec<String>)
    ensures
        pieces_view(p@) == lowered_chars(s@),
{
    let c = chars_of(s);
    let mut p: Vec<String> = Vec::new();
    let mut i: usize = 0;
    while i < c.len()
        invariant
            c@ == s@,
            i <= c@.len(),
            p@.len() == i,
            forall|j: int| 0 <= j < i ==> (#[trigger] p@[j])@ == str_lowercase(seq![s@[j]]),
        decreases c@.len() - i,
    {
        let mut one = String::new();
        one.push(c[i]);
        proof {
            assert(one@ =~= seq![s@[i as int]]);
        }
        p.push(lowercase(one.as_str()));
        i = i + 1;
    }
    proof {
        assert(pieces_view(p@) =~= lowered_chars(s@));
    }
    p
}

/// Search every chapter's text for `query`, ignoring case (both lowercased), and return at most [`EPUB_WHOLE_BOOK_MATCH_LIMIT`] hits in reading order (see
/// [`book_hits`]). A blank query finds nothing.
#[verifier::rlimit(60)]
pub fn epub_search_whole_book(texts: &Vec<String>, query: &str) -> (r: Vec<WholeBookMatch>)
    ensures
        trim(query@).len() == 0 ==> r@.len() == 0,
        trim(query@).len() != 0 ==> ({
            let hits = book_hits(
                texts_chars(texts@),
                str_lowercase(query@),
                0,
                EPUB_WHOLE_BOOK_MATCH_LIMIT as nat,
            );
            &&& r@.len() == hits.len()
            &&& forall|i: int|
                0 <= i < hits.len() ==> describes(#[trigger] r@[i], hits[i].0, texts@[hits[i].0]@, hits[i].1)
        }),
{
    if is_blank(query) {
        return Vec::new();
    }
    let needle = lowercase(query);
    let ghost ts = texts_chars(texts@);
    let ghost n = needle@;
    let mut results: Vec<WholeBookMatch> = Vec::new();
    let ghost mut done: Seq<(int, HitView)> = Seq::empty();
    let mut c: usize = 0;
    while c < texts.len() && results.len() < EPUB_WHOLE_BOOK_MATCH_LIMIT
        invariant
            ts == texts_chars(texts@),
            n == needle@,
            n == str_lowercase(query@),
            c <= texts@.len(),
            results@.len() == done.len(),
            done.len() <= EPUB_WHOLE_BOOK_MATCH_LIMIT,
            forall|i: int| 0 <= i < done.len() ==> 0 <= (#[trigger] done[i]).0 < texts@.len() && describes(results@[i], done[i].0, texts@[done[i].0]@, done[i].1),
            book_hits(ts, n, 0, EPUB_WHOLE_BOOK_MATCH_LIMIT as nat) == done + book_hits(
                ts,
                n,
                c as int,
                (EPUB_WHOLE_BOOK_MATCH_LIMIT - done.len()) as nat,
            ),
        decreases texts@.len() - c,
    {
        proof {
            reveal(book_hits);
        }
        let pieces = lowered_pieces(texts[c].as_str());
        let lowered = lowercase(texts[c].as_str());
        let remaining = EPUB_WHOLE_BOOK_MATCH_LIMIT - results.len();
        let found = chapter_matches(c, texts[c].as_str(), &pieces, lowered.as_str(), needle.as_str(), remaining);
        proof {
            assert(ts[c as int] == texts@[c as int]@);
        }
        let ghost hits = text_hits(ts[c as int], lowered_chars(ts[c as int]), str_lowercase(ts[c as int]), n, remaining as nat);
        let ghost tagged = Seq::new(hits.len(), |i: int| (c as int, hits[i]));
        let ghost prev_results = results@;
        let ghost found_v = found@;
        let mut found = found;
        results.append(&mut found);
        proof {
            assert(forall|s: Seq<(int, HitView)>| done + (tagged + s) =~= (done + tagged) + s);
            let new_done = done + tagged;
            assert forall|i: int| 0 <= i < new_done.len() implies 0 <= (#[trigger] new_done[i]).0 < texts@.len() && describes(results@[i], new_done[i].0, texts@[new_done[i].0]@, new_done[i].1) by {
                if i < done.len() {
                    assert(results@[i] == prev_results[i]);
                    assert(new_done[i] == done[i]);
                } else {
                    let k = i - done.len();
                    assert(new_done[i] == tagged[k]);
                    assert(results@[i] == found_v[k]);
                }
            }
            done = new_done;
        }
        c = c + 1;
    }
    proof {
        reveal(book_hits);
        assert(done + Seq::<(int, HitView)>::empty() =~= done);
    }
    results
}

} // verus!
