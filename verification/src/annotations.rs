//! The parts of an annotation the reader's lists and highlight overlay read, and the orders
//! and selections made from them.

use vstd::prelude::*;

use crate::epub::{spine_position, spine_position_spec, spine_view};
use crate::ordering::{front_first_lt, key_of, law_lex_lt_is_front_first_order, lex_lt, sorts_before, stable_order};
use crate::keyed::{has_key, lemma_without_key_members, remove_key, without_key, KeyedEntry};
use crate::pages::{labels_view, printed_label, printed_label_spec};
use crate::text::{chars_of, concat_str, str_eq, string_of_range, trim, trim_str};

verus! {

/// What kind of mark an annotation is.
#[derive(Debug, Clone, Copy, PartialEq, Eq, Structural)]
pub enum AnnotationKind {
    Highlight,
    Underline,
    Strikeout,
    Note,
}

/// One annotation, as far as the reader's lists and highlight overlay read it.
pub struct AnnotationInfo {
    pub id: String,
    pub kind: AnnotationKind,
    /// The 1-based page of a PDF annotation.
    pub page: Option<u32>,
    /// The chapter file of an EPUB annotation.
    pub chapter: Option<String>,
    /// The marked text.
    pub snippet: Option<String>,
    /// Text just before the snippet, to tell repeated snippets apart.
    pub snippet_prefix: Option<String>,
    /// Text just after the snippet.
    pub snippet_suffix: Option<String>,
    /// The highlight colour, `#rrggbb`.
    pub color: Option<String>,
    /// When the annotation was made, as an RFC 3339 timestamp.
    pub created: String,
    /// The reader's note on it.
    pub note: Option<String>,
}

impl KeyedEntry for AnnotationInfo {
    open spec fn key(&self) -> Seq<char> {
        self.id@
    }

    fn key_str(&self) -> (k: &str) {
        self.id.as_str()
    }
}

/// The label of a kind, as the EPUB notes list shows it.
pub fn kind_name(kind: AnnotationKind) -> (s: &'static str)
    ensures
        s@ == match kind {
            AnnotationKind::Highlight => "Highlight"@,
            AnnotationKind::Underline => "Underline"@,
            AnnotationKind::Strikeout => "Strikeout"@,
            AnnotationKind::Note => "Note"@,
        },
{
    match kind {
        AnnotationKind::Highlight => "Highlight",
        AnnotationKind::Underline => "Underline",
        AnnotationKind::Strikeout => "Strikeout",
        AnnotationKind::Note => "Note",
    }
}

/// The confirmation shown after a drag created an annotation of `kind`.
pub fn added_message(kind: AnnotationKind) -> (s: &'static str)
    ensures
        s@ == match kind {
            AnnotationKind::Highlight => "Highlight added"@,
            AnnotationKind::Underline => "Underline added"@,
            AnnotationKind::Strikeout => "Strikeout added"@,
            AnnotationKind::Note => "Annotation added"@,
        },
{
    match kind {
        AnnotationKind::Highlight => "Highlight added",
        AnnotationKind::Underline => "Underline added",
        AnnotationKind::Strikeout => "Strikeout added",
        AnnotationKind::Note => "Annotation added",
    }
}

/// Whether annotation `a` lists before annotation `b` when ordered by key `ka`/`kb`, then
/// creation time, then stored position.
pub open spec fn lists_before(ka: int, ca: Seq<char>, a: int, kb: int, cb: Seq<char>, b: int) -> bool {
    ka < kb || (ka == kb && (lex_lt(ca, cb) || (ca == cb && a < b)))
}

/// `order` lists exactly the annotations selected by `sel`, each once, ascending by
/// `key`, then creation time, then stored position.
pub open spec fn is_listing(
    annots: Seq<AnnotationInfo>,
    order: Seq<usize>,
    sel: spec_fn(AnnotationInfo) -> bool,
    key: spec_fn(AnnotationInfo) -> int,
) -> bool {
    &&& forall|i: int| 0 <= i < order.len() ==> (#[trigger] order[i]) < annots.len() && sel(annots[order[i] as int])
    &&& forall|i: int, j: int|
        0 <= i < j < order.len() ==> lists_before(
            key(annots[#[trigger] order[i] as int]),
            annots[order[i] as int].created@,
            order[i] as int,
            key(annots[#[trigger] order[j] as int]),
            annots[order[j] as int].created@,
            order[j] as int,
        )
    &&& forall|p: int| 0 <= p < annots.len() && sel(annots[p]) ==> #[trigger] order.contains(p as usize)
}

/// Law: in a notes listing, annotations with a smaller key (page, or chapter position) come
/// first, and two with the same key come in order of creation time, the timestamps compared
/// as text from the front (so `2026-01-09…` before `2026-01-10…`), equal times in stored
/// order.
pub proof fn law_listing_by_key_then_creation(
    annots: Seq<AnnotationInfo>,
    order: Seq<usize>,
    sel: spec_fn(AnnotationInfo) -> bool,
    key: spec_fn(AnnotationInfo) -> int,
    a: int,
    b: int,
)
    requires
        is_listing(annots, order, sel, key),
        0 <= a < b < order.len(),
    ensures
        ({
            let x = annots[order[a] as int];
            let y = annots[order[b] as int];
            ||| key(x) < key(y)
            ||| key(x) == key(y) && front_first_lt(x.created@, y.created@)
            ||| key(x) == key(y) && x.created@ == y.created@ && order[a] < order[b]
        }),
{
    let x = annots[order[a] as int];
    let y = annots[order[b] as int];
    assert(lists_before(key(x), x.created@, order[a] as int, key(y), y.created@, order[b] as int));
    law_lex_lt_is_front_first_order(x.created@, y.created@);
}

/// Sort the selected positions `selected` (ascending) by `keys` (one key per selected
/// position) and map back to annotation positions.
fn listing_from(
    annots: &Vec<AnnotationInfo>,
    selected: &Vec<usize>,
    keys: &Vec<(u64, String)>,
    Ghost(sel): Ghost<spec_fn(AnnotationInfo) -> bool>,
    Ghost(key): Ghost<spec_fn(AnnotationInfo) -> int>,
) -> (order: Vec<usize>)
    requires
        keys@.len() == selected@.len(),
        forall|k: int| 0 <= k < selected@.len() ==> (#[trigger] selected@[k]) < annots@.len() && sel(annots@[selected@[k] as int]),
        forall|k: int, l: int| 0 <= k < l < selected@.len() ==> #[trigger] selected@[k] < #[trigger] selected@[l],
        forall|p: int| 0 <= p < annots@.len() && sel(annots@[p]) ==> #[trigger] selected@.contains(p as usize),
        forall|k: int| 0 <= k < selected@.len() ==> (#[trigger] keys@[k]).0 as int == key(annots@[selected@[k] as int])
            && keys@[k].1@ == annots@[selected@[k] as int].created@,
    ensures
        is_listing(annots@, order@, sel, key),
{
    let idx = stable_order(keys);
    let mut order: Vec<usize> = Vec::new();
    let mut m: usize = 0;
    while m < idx.len()
        invariant
            m <= idx@.len(),
            idx@.len() == keys@.len(),
            keys@.len() == selected@.len(),
            order@.len() == m,
            forall|k: int| 0 <= k < idx@.len() ==> (#[trigger] idx@[k]) < selected@.len(),
            forall|k: int| 0 <= k < m ==> #[trigger] order@[k] == selected@[idx@[k] as int],
        decreases idx@.len() - m,
    {
        order.push(selected[idx[m]]);
        m = m + 1;
    }
    proof {
        let a = annots@;
        assert forall|i: int, j: int| 0 <= i < j < order@.len() implies lists_before(
            key(a[#[trigger] order@[i] as int]),
            a[order@[i] as int].created@,
            order@[i] as int,
            key(a[#[trigger] order@[j] as int]),
            a[order@[j] as int].created@,
            order@[j] as int,
        ) by {
            let (x, y) = (idx@[i] as int, idx@[j] as int);
            assert(sorts_before(keys@, x, y));
            assert(key_of(keys@, x).0 == key(a[selected@[x] as int]));
            assert(key_of(keys@, y).0 == key(a[selected@[y] as int]));
            if x < y {
                assert(selected@[x] < selected@[y]);
            }
        }
        assert forall|p: int| 0 <= p < a.len() && sel(a[p]) implies #[trigger] order@.contains(p as usize) by {
            assert(selected@.contains(p as usize));
            let k = choose|k: int| 0 <= k < selected@.len() && selected@[k] == p as usize;
            assert(idx@.contains(k as usize));
            let m2 = choose|m2: int| 0 <= m2 < idx@.len() && idx@[m2] == k as usize;
            assert(order@[m2] == p as usize);
        }
    }
    order
}

/// The PDF notes list: the annotations that have a page, by page, then creation time, then
/// stored order.
#[verifier::loop_isolation(false)]
pub fn pdf_notes_order(annots: &Vec<AnnotationInfo>) -> (order: Vec<usize>)
    ensures
        is_listing(
            annots@,
            order@,
            |a: AnnotationInfo| a.page is Some,
            |a: AnnotationInfo| match a.page { Some(p) => p as int, None => 0 },
        ),
{
    let ghost sel = |a: AnnotationInfo| a.page is Some;
    let ghost key = |a: AnnotationInfo| match a.page { Some(p) => p as int, None => 0 };
    let mut selected: Vec<usize> = Vec::new();
    let mut keys: Vec<(u64, String)> = Vec::new();
    let mut i: usize = 0;
    while i < annots.len()
        invariant
            i <= annots@.len(),
            keys@.len() == selected@.len(),
            forall|k: int| 0 <= k < selected@.len() ==> (#[trigger] selected@[k]) < i && sel(annots@[selected@[k] as int]),
            forall|k: int, l: int| 0 <= k < l < selected@.len() ==> #[trigger] selected@[k] < #[trigger] selected@[l],
            forall|p: int| 0 <= p < i && sel(annots@[p]) ==> #[trigger] selected@.contains(p as usize),
            forall|k: int| 0 <= k < selected@.len() ==> (#[trigger] keys@[k]).0 as int == key(annots@[selected@[k] as int])
                && keys@[k].1@ == annots@[selected@[k] as int].created@,
        decreases annots@.len() - i,
    {
        if let Some(p) = annots[i].page {
            let ghost before = selected@;
            selected.push(i);
            keys.push((p as u64, annots[i].created.clone()));
            proof {
                assert forall|q: int| 0 <= q < i + 1 && sel(annots@[q]) implies #[trigger] selected@.contains(q as usize) by {
                    if q < i {
                        assert(before.contains(q as usize));
                        let k = choose|k: int| 0 <= k < before.len() && before[k] == q as usize;
                        assert(selected@[k] == before[k]);
                    } else {
                        assert(selected@[before.len() as int] == i);
                    }
                }
            }
        }
        i = i + 1;
    }
    listing_from(annots, &selected, &keys, Ghost(sel), Ghost(key))
}

/// The sort key of an EPUB annotation's chapter: its position in the spine, or after every
/// chapter when it is not one of them.
pub open spec fn chapter_key(spine: Seq<Seq<char>>, a: AnnotationInfo) -> int {
    match a.chapter {
        Some(c) => match spine_position_spec(spine, c@) {
            Some(i) => i,
            None => usize::MAX as int,
        },
        None => usize::MAX as int,
    }
}

/// The EPUB notes list: the annotations that have a chapter, by chapter position in the
/// spine, then creation time, then stored order.
#[verifier::loop_isolation(false)]
pub fn epub_notes_order(annots: &Vec<AnnotationInfo>, spine: &Vec<String>) -> (order: Vec<usize>)
    ensures
        is_listing(
            annots@,
            order@,
            |a: AnnotationInfo| a.chapter is Some,
            |a: AnnotationInfo| chapter_key(spine_view(spine@), a),
        ),
{
    let ghost sel = |a: AnnotationInfo| a.chapter is Some;
    let ghost key = |a: AnnotationInfo| chapter_key(spine_view(spine@), a);
    let mut selected: Vec<usize> = Vec::new();
    let mut keys: Vec<(u64, String)> = Vec::new();
    let mut i: usize = 0;
    while i < annots.len()
        invariant
            i <= annots@.len(),
            keys@.len() == selected@.len(),
            forall|k: int| 0 <= k < selected@.len() ==> (#[trigger] selected@[k]) < i && sel(annots@[selected@[k] as int]),
            forall|k: int, l: int| 0 <= k < l < selected@.len() ==> #[trigger] selected@[k] < #[trigger] selected@[l],
            forall|p: int| 0 <= p < i && sel(annots@[p]) ==> #[trigger] selected@.contains(p as usize),
            forall|k: int| 0 <= k < selected@.len() ==> (#[trigger] keys@[k]).0 as int == key(annots@[selected@[k] as int])
                && keys@[k].1@ == annots@[selected@[k] as int].created@,
        decreases annots@.len() - i,
    {
        if let Some(ch) = &annots[i].chapter {
            let pos: u64 = match spine_position(spine, ch.as_str()) {
                Some(p) => p as u64,
                None => usize::MAX as u64,
            };
            let ghost before = selected@;
            selected.push(i);
            keys.push((pos, annots[i].created.clone()));
            proof {
                assert forall|q: int| 0 <= q < i + 1 && sel(annots@[q]) implies #[trigger] selected@.contains(q as usize) by {
                    if q < i {
                        assert(before.contains(q as usize));
                        let k = choose|k: int| 0 <= k < before.len() && before[k] == q as usize;
                        assert(selected@[k] == before[k]);
                    } else {
                        assert(selected@[before.len() as int] == i);
                    }
                }
            }
        }
        i = i + 1;
    }
    listing_from(annots, &selected, &keys, Ghost(sel), Ghost(key))
}

/// The 1-based number of chapter `chapter` in `spine` (0 when it is not one of them), as
/// the EPUB notes list labels a note.
pub fn chapter_number(spine: &Vec<String>, chapter: &str) -> (n: usize)
    ensures
        n == match spine_position_spec(spine_view(spine@), chapter@) {
            Some(i) => i + 1,
            None => 0,
        },
{
    let _len = spine.len();
    match spine_position(spine, chapter) {
        Some(i) => i + 1,
        None => 0,
    }
}

/// One annotation as sent to the EPUB highlight overlay: enough to find its text in the
/// rendered chapter and mark it.
pub struct HighlightPayload {
    pub id: String,
    pub snippet: String,
    pub prefix: Option<String>,
    pub suffix: Option<String>,
    pub kind: AnnotationKind,
    pub color: Option<String>,
}

fn clone_opt(o: &Option<String>) -> (r: Option<String>)
    ensures
        r == *o,
{
    match o {
        Some(s) => Some(s.clone()),
        None => None,
    }
}

/// Whether payload item `p` is annotation `a`'s.
pub open spec fn payload_of(p: HighlightPayload, a: AnnotationInfo) -> bool {
    &&& p.id@ == a.id@
    &&& a.snippet matches Some(s) && p.snippet@ == s@
    &&& p.prefix == a.snippet_prefix
    &&& p.suffix == a.snippet_suffix
    &&& p.kind == a.kind
    &&& p.color == a.color
}

/// Whether annotation `a` is highlighted in chapter `chapter`: it is anchored there and has
/// a snippet to find.
pub open spec fn shown_in(a: AnnotationInfo, chapter: Seq<char>) -> bool {
    &&& a.chapter matches Some(c) && c@ == chapter
    &&& a.snippet is Some
}

/// The positions of the annotations of `annots` highlighted in `chapter`, in stored order.
pub open spec fn shown_positions(annots: Seq<AnnotationInfo>, chapter: Seq<char>) -> Seq<int>
    decreases annots.len(),
{
    if annots.len() == 0 {
        Seq::empty()
    } else {
        let rest = shown_positions(annots.drop_last(), chapter);
        if shown_in(annots.last(), chapter) {
            rest.push(annots.len() - 1)
        } else {
            rest
        }
    }
}

/// Law: the annotations highlighted in a chapter are exactly those anchored to that chapter
/// that have a snippet, whatever their kind, colour or note, each once, in stored order.
pub proof fn law_shown_positions_exactly(annots: Seq<AnnotationInfo>, chapter: Seq<char>)
    ensures
        forall|k: int| 0 <= k < shown_positions(annots, chapter).len() ==> {
            let i = #[trigger] shown_positions(annots, chapter)[k];
            &&& 0 <= i < annots.len()
            &&& (annots[i].chapter is Some && annots[i].chapter->0@ == chapter)
            &&& annots[i].snippet is Some
        },
        forall|k: int, l: int| 0 <= k < l < shown_positions(annots, chapter).len()
            ==> #[trigger] shown_positions(annots, chapter)[k] < #[trigger] shown_positions(annots, chapter)[l],
        forall|i: int| 0 <= i < annots.len() && (#[trigger] annots[i].chapter is Some && annots[i].chapter->0@ == chapter)
            && annots[i].snippet is Some ==> shown_positions(annots, chapter).contains(i),
    decreases annots.len(),
{
    if annots.len() > 0 {
        let rest = annots.drop_last();
        law_shown_positions_exactly(rest, chapter);
        let sp = shown_positions(annots, chapter);
        let rp = shown_positions(rest, chapter);
        assert forall|k: int| 0 <= k < rp.len() implies #[trigger] rp[k] < rest.len() && rest[rp[k]] == annots[rp[k]] by {}
        assert forall|i: int| 0 <= i < annots.len() && (#[trigger] annots[i].chapter is Some && annots[i].chapter->0@ == chapter)
            && annots[i].snippet is Some implies sp.contains(i) by {
            if i < annots.len() - 1 {
                assert(rest[i] == annots[i]);
                assert(rp.contains(i));
                let k = choose|k: int| 0 <= k < rp.len() && rp[k] == i;
                assert(sp[k] == i);
            } else {
                assert(shown_in(annots.last(), chapter));
                assert(sp[sp.len() - 1] == i);
            }
        }
    }
}

/// The annotations to highlight in EPUB chapter `chapter`, in stored order: those anchored
/// to it that have a snippet (one without a snippet could not be found in the text).
pub fn epub_highlight_payload(annots: &Vec<AnnotationInfo>, chapter: &str) -> (items: Vec<HighlightPayload>)
    ensures
        items@.len() == shown_positions(annots@, chapter@).len(),
        forall|k: int| 0 <= k < items@.len() ==> payload_of(
            #[trigger] items@[k],
            annots@[shown_positions(annots@, chapter@)[k]],
        ),
        forall|i: int| 0 <= i < annots@.len() && (#[trigger] annots@[i].chapter is Some && annots@[i].chapter->0@ == chapter@)
            && annots@[i].snippet is Some ==> exists|k: int| 0 <= k < items@.len() && payload_of(items@[k], annots@[i]),
        forall|k: int| 0 <= k < items@.len() ==> {
            let i = #[trigger] shown_positions(annots@, chapter@)[k];
            &&& 0 <= i < annots@.len()
            &&& annots@[i].chapter is Some && annots@[i].chapter->0@ == chapter@
            &&& annots@[i].snippet is Some
        },
{
    proof {
        law_shown_positions_exactly(annots@, chapter@);
    }
    let mut items: Vec<HighlightPayload> = Vec::new();
    let mut i: usize = 0;
    proof {
        assert(annots@.take(0) =~= Seq::<AnnotationInfo>::empty());
    }
    while i < annots.len()
        invariant
            i <= annots@.len(),
            items@.len() == shown_positions(annots@.take(i as int), chapter@).len(),
            forall|k: int| 0 <= k < items@.len() ==> 0 <= #[trigger] shown_positions(annots@.take(i as int), chapter@)[k] < i
                && payload_of(items@[k], annots@[shown_positions(annots@.take(i as int), chapter@)[k]]),
        decreases annots@.len() - i,
    {
        let ghost before = shown_positions(annots@.take(i as int), chapter@);
        proof {
            assert(annots@.take(i + 1).drop_last() =~= annots@.take(i as int));
            assert(annots@.take(i + 1).last() == annots@[i as int]);
        }
        let a = &annots[i];
        let in_chapter = match &a.chapter {
            Some(c) => str_eq(c.as_str(), chapter),
            None => false,
        };
        if in_chapter && a.snippet.is_some() {
            let s = match &a.snippet {
                Some(s) => s.clone(),
                None => String::new(),
            };
            let item = HighlightPayload {
                id: a.id.clone(),
                snippet: s,
                prefix: clone_opt(&a.snippet_prefix),
                suffix: clone_opt(&a.snippet_suffix),
                kind: a.kind,
                color: clone_opt(&a.color),
            };
            let ghost prev_items = items@;
            items.push(item);
            proof {
                let after = shown_positions(annots@.take(i + 1), chapter@);
                assert(after == before.push(i as int));
                assert forall|k: int| 0 <= k < items@.len() implies 0 <= #[trigger] after[k] < i + 1
                    && payload_of(items@[k], annots@[after[k]]) by {
                    if k < before.len() {
                        assert(items@[k] == prev_items[k]);
                        assert(after[k] == before[k]);
                    }
                }
            }
        } else {
            proof {
                let after = shown_positions(annots@.take(i + 1), chapter@);
                assert(after == before);
            }
        }
        i = i + 1;
    }
    proof {
        assert(annots@.take(i as int) =~= annots@);
        let sp = shown_positions(annots@, chapter@);
        assert forall|j: int| 0 <= j < annots@.len() && (#[trigger] annots@[j].chapter is Some && annots@[j].chapter->0@ == chapter@)
            && annots@[j].snippet is Some implies exists|k: int| 0 <= k < items@.len() && payload_of(items@[k], annots@[j]) by {
            assert(sp.contains(j));
            let k = choose|k: int| 0 <= k < sp.len() && sp[k] == j;
            assert(payload_of(items@[k], annots@[sp[k]]));
        }
        law_shown_positions_exactly(annots@, chapter@);
    }
    items
}


/// The position just after the last `/` in `s` (0 when there is none).
pub open spec fn after_last_slash(s: Seq<char>) -> int
    decreases s.len(),
{
    if s.len() == 0 {
        0
    } else if s.last() == '/' {
        s.len() as int
    } else {
        after_last_slash(s.drop_last())
    }
}

/// `after_last_slash(s)` lies within `s`, is preceded by a `/` when it is not 0, and no `/`
/// follows it.
pub proof fn lemma_after_last_slash(s: Seq<char>)
    ensures
        0 <= after_last_slash(s) <= s.len(),
        after_last_slash(s) > 0 ==> s[after_last_slash(s) - 1] == '/',
        forall|j: int| after_last_slash(s) <= j < s.len() ==> s[j] != '/',
    decreases s.len(),
{
    if s.len() > 0 && s.last() != '/' {
        let t = s.drop_last();
        lemma_after_last_slash(t);
        assert forall|j: int| after_last_slash(s) <= j < s.len() implies s[j] != '/' by {
            if j < t.len() {
                assert(s[j] == t[j]);
            }
        }
    }
}

/// A position preceded by a `/` (or at the start) and followed by no `/` is
/// `after_last_slash(s)`.
pub proof fn lemma_after_last_slash_at(s: Seq<char>, a: int)
    requires
        0 <= a <= s.len(),
        a > 0 ==> s[a - 1] == '/',
        forall|j: int| a <= j < s.len() ==> s[j] != '/',
    ensures
        after_last_slash(s) == a,
    decreases s.len(),
{
    if s.len() > 0 && s.last() != '/' {
        lemma_after_last_slash_at(s.drop_last(), a);
    }
}

/// `Path::file_name` on a `/`-separated path: the final component when it is a name. Trailing
/// separators and `.` components are passed over; the result is none when the path has no
/// components, ends in `..`, or is only a leading `.`.
pub open spec fn file_name_of(s: Seq<char>) -> Option<Seq<char>>
    decreases s.len(),
{
    if s.len() == 0 {
        None
    } else if s.last() == '/' {
        file_name_of(s.drop_last())
    } else {
        let start = after_last_slash(s);
        let seg = s.subrange(start, s.len() as int);
        proof {
            lemma_after_last_slash(s);
            lemma_after_last_slash(s.drop_last());
        }
        if seg == seq!['.'] {
            if start == 0 {
                None
            } else {
                file_name_of(s.take(start))
            }
        } else if seg == seq!['.', '.'] {
            None
        } else {
            Some(seg)
        }
    }
}

/// The file name of path `path` (see [`file_name_of`]).
pub fn path_file_name(path: &str) -> (r: Option<String>)
    ensures
        match r {
            Some(f) => file_name_of(path@) == Some(f@),
            None => file_name_of(path@) is None,
        },
{
    let c = chars_of(path);
    let mut end: usize = c.len();
    proof {
        assert(c@.take(end as int) =~= c@);
    }
    loop
        invariant
            end <= c@.len(),
            c@ == path@,
            file_name_of(c@.take(end as int)) == file_name_of(path@),
        decreases end,
    {
        if end == 0 {
            proof {
                assert(c@.take(0) =~= Seq::<char>::empty());
            }
            return None;
        }
        let ghost t = c@.take(end as int);
        if c[end - 1] == '/' {
            proof {
                assert(t.drop_last() =~= c@.take(end - 1));
            }
            end = end - 1;
        } else {
            let mut start: usize = end;
            while start > 0 && c[start - 1] != '/'
                invariant
                    start <= end <= c@.len(),
                    forall|j: int| start <= j < end ==> c@[j] != '/',
                decreases start,
            {
                start = start - 1;
            }
            proof {
                lemma_after_last_slash_at(t, start as int);
                lemma_after_last_slash(t.drop_last());
                assert(t.subrange(start as int, end as int) =~= c@.subrange(start as int, end as int));
            }
            let len = end - start;
            if len == 1 && c[start] == '.' {
                proof {
                    assert(t.subrange(start as int, end as int) =~= seq!['.']);
                }
                if start == 0 {
                    return None;
                }
                proof {
                    assert(t.take(start as int) =~= c@.take(start as int));
                }
                end = start;
            } else if len == 2 && c[start] == '.' && c[start + 1] == '.' {
                proof {
                    assert(t.subrange(start as int, end as int) =~= seq!['.', '.']);
                }
                return None;
            } else {
                proof {
                    let seg = t.subrange(start as int, end as int);
                    if seg == seq!['.'] {
                        assert(seg[0] == c@[start as int]);
                    }
                    if seg == seq!['.', '.'] {
                        assert(seg[0] == c@[start as int] && seg[1] == c@[start + 1]);
                    }
                }
                return Some(string_of_range(&c, start, end));
            }
        }
    }
}

/// Where an annotation sits, as the annotations dialog labels it: `Page <label>` for a PDF
/// annotation (the page's printed label, else its number), the chapter's file name for an
/// EPUB one (the whole chapter path when it has no file name), else `Unknown location`.
pub open spec fn location_text(a: AnnotationInfo, labels: Seq<Option<Seq<char>>>) -> Seq<char> {
    match a.page {
        Some(p) => "Page "@ + printed_label_spec(labels, p as nat),
        None => match a.chapter {
            Some(c) => match file_name_of(c@) {
                Some(f) => f,
                None => c@,
            },
            None => "Unknown location"@,
        },
    }
}

/// The location label of annotation `a` (see [`location_text`]), given the PDF's printed
/// page labels.
pub fn annotation_location(a: &AnnotationInfo, page_labels: &Vec<Option<String>>) -> (s: String)
    ensures
        s@ == location_text(*a, labels_view(page_labels@)),
{
    proof {
        reveal_strlit("Page ");
        reveal_strlit("Unknown location");
    }
    match a.page {
        Some(p) => {
            let printed = printed_label(page_labels, p);
            concat_str("Page ", printed.as_str())
        },
        None => match &a.chapter {
            Some(c) => match path_file_name(c.as_str()) {
                Some(f) => f,
                None => c.clone(),
            },
            None => "Unknown location".to_owned(),
        },
    }
}

/// The heading of an annotation's row in the annotations dialog: `<location> · <kind>`.
pub fn annotation_heading(a: &AnnotationInfo, page_labels: &Vec<Option<String>>) -> (s: String)
    ensures
        s@ == location_text(*a, labels_view(page_labels@)) + " · "@ + match a.kind {
            AnnotationKind::Highlight => "Highlight"@,
            AnnotationKind::Underline => "Underline"@,
            AnnotationKind::Strikeout => "Strikeout"@,
            AnnotationKind::Note => "Note"@,
        },
{
    let location = annotation_location(a, page_labels);
    let with_dot = concat_str(location.as_str(), " · ");
    concat_str(with_dot.as_str(), kind_name(a.kind))
}

/// The text of annotation `a`'s note, empty when it has none.
pub open spec fn note_text(a: AnnotationInfo) -> Seq<char> {
    match a.note {
        Some(n) => n@,
        None => Seq::empty(),
    }
}

/// Annotation `b` is `a` with only its note possibly changed.
pub open spec fn same_but_note(a: AnnotationInfo, b: AnnotationInfo) -> bool {
    b == AnnotationInfo { note: b.note, ..a }
}

/// `i` is the position of the first annotation of `s` whose id is `id`.
pub open spec fn is_first_with_id(s: Seq<AnnotationInfo>, id: Seq<char>, i: int) -> bool {
    &&& 0 <= i < s.len()
    &&& s[i].id@ == id
    &&& forall|j: int| 0 <= j < i ==> #[trigger] s[j].id@ != id
}

/// The note text saved for annotation `id` when its note field holds `text`: `text` trimmed.
/// The edit goes ahead unless it equals the current note text (of the first annotation with
/// that id, or the empty text when there is none); going ahead, that annotation's note
/// becomes the trimmed text, or none when that is empty, and nothing else changes. Reports
/// whether the edit went ahead, which is when the reader takes an undo snapshot and saves.
pub fn edit_note(annots: &mut Vec<AnnotationInfo>, id: &str, text: &str) -> (proceed: bool)
    ensures
        (forall|i: int| !is_first_with_id(old(annots)@, id@, i)) ==> {
            &&& proceed == (trim(text@).len() != 0)
            &&& final(annots)@ == old(annots)@
        },
        forall|i: int| #[trigger] is_first_with_id(old(annots)@, id@, i) ==> {
            &&& proceed == (note_text(old(annots)@[i]) != trim(text@))
            &&& !proceed ==> final(annots)@ == old(annots)@
            &&& proceed ==> {
                &&& final(annots)@.len() == old(annots)@.len()
                &&& forall|j: int| 0 <= j < old(annots)@.len() && j != i ==> final(annots)@[j] == old(annots)@[j]
                &&& same_but_note(old(annots)@[i], final(annots)@[i])
                &&& if trim(text@).len() == 0 {
                    final(annots)@[i].note is None
                } else {
                    final(annots)@[i].note matches Some(n) && n@ == trim(text@)
                }
            }
        },
{
    let t = trim_str(text);
    let mut i: usize = 0;
    while i < annots.len()
        invariant
            i <= annots@.len(),
            annots@ == old(annots)@,
            forall|j: int| 0 <= j < i ==> #[trigger] annots@[j].id@ != id@,
        ensures
            i <= annots@.len(),
            annots@ == old(annots)@,
            forall|j: int| 0 <= j < i ==> #[trigger] annots@[j].id@ != id@,
            i < annots@.len() ==> annots@[i as int].id@ == id@,
        decreases annots@.len() - i,
    {
        if str_eq(annots[i].id.as_str(), id) {
            break;
        }
        i = i + 1;
    }
    proof {
        reveal_strlit("");
        assert(""@ =~= Seq::<char>::empty());
        assert(t@.len() == 0 <==> t@ =~= ""@);
    }
    if i == annots.len() {
        proof {
            assert forall|k: int| !is_first_with_id(old(annots)@, id@, k) by {
                if is_first_with_id(old(annots)@, id@, k) {
                    assert(annots@[k].id@ != id@);
                }
            }
        }
        return !str_eq(t.as_str(), "");
    }
    proof {
        assert(is_first_with_id(old(annots)@, id@, i as int));
        assert forall|k: int| is_first_with_id(old(annots)@, id@, k) implies k == i by {
            if k < i {
                assert(annots@[k].id@ != id@);
            }
            if k > i {
                assert(old(annots)@[i as int].id@ != id@);
            }
        }
        reveal_strlit("");
    }
    let unchanged = match &annots[i].note {
        Some(n) => str_eq(n.as_str(), t.as_str()),
        None => str_eq("", t.as_str()),
    };
    if unchanged {
        return false;
    }
    let blank = str_eq(t.as_str(), "");
    let mut a = annots.remove(i);
    a.note = if blank { None } else { Some(t) };
    annots.insert(i, a);
    proof {
        assert(note_text(old(annots)@[i as int]) != trim(text@));
        assert(annots@[i as int] == a);
        assert(same_but_note(old(annots)@[i as int], annots@[i as int]));
        assert forall|j: int| 0 <= j < old(annots)@.len() && j != i implies annots@[j] == old(annots)@[j] by {
            if j < i {
            } else {
            }
        }
    }
    true
}

/// Delete every annotation whose id is `id`, keeping the rest in order.
pub fn delete_annotation(annots: &mut Vec<AnnotationInfo>, id: &str)
    ensures
        final(annots)@ == without_key(old(annots)@, id@),
{
    remove_key(annots, id);
}

/// After a deletion no annotation carries the deleted id, and every annotation with another
/// id is still there.
pub proof fn law_delete_removes_only_that_id(annots: Seq<AnnotationInfo>, id: Seq<char>)
    ensures
        !has_key(without_key(annots, id), id),
        forall|i: int| 0 <= i < annots.len() && #[trigger] annots[i].id@ != id ==> without_key(annots, id).contains(annots[i]),
{
    lemma_without_key_members(annots, id);
    if has_key(without_key(annots, id), id) {
        let i = choose|i: int| 0 <= i < without_key(annots, id).len() && #[trigger] without_key(annots, id)[i].key() == id;
        assert(without_key(annots, id)[i].key() != id);
    }
    assert forall|i: int| 0 <= i < annots.len() && #[trigger] annots[i].id@ != id implies without_key(annots, id).contains(annots[i]) by {
        assert(annots[i].key() != id);
    }
}


/// Whether some annotation of `s` has id `id`.
pub open spec fn has_id(s: Seq<AnnotationInfo>, id: Seq<char>) -> bool {
    exists|i: int| 0 <= i < s.len() && #[trigger] s[i].id@ == id
}

/// The annotations dialog commits note field text `text` for annotation `id`: the first
/// annotation with that id gets the trimmed text as its note, or none when that is blank,
/// whether or not it changed, and nothing else changes. Reports whether there was such an
/// annotation (the dialog saves the sidecar exactly then).
pub fn commit_note(annots: &mut Vec<AnnotationInfo>, id: &str, text: &str) -> (found: bool)
    ensures
        found == has_id(old(annots)@, id@),
        !found ==> final(annots)@ == old(annots)@,
        forall|i: int| #[trigger] is_first_with_id(old(annots)@, id@, i) ==> {
            &&& final(annots)@.len() == old(annots)@.len()
            &&& forall|j: int| 0 <= j < old(annots)@.len() && j != i ==> final(annots)@[j] == old(annots)@[j]
            &&& same_but_note(old(annots)@[i], final(annots)@[i])
            &&& if trim(text@).len() == 0 {
                final(annots)@[i].note is None
            } else {
                final(annots)@[i].note matches Some(n) && n@ == trim(text@)
            }
        },
{
    let t = trim_str(text);
    let mut i: usize = 0;
    while i < annots.len()
        invariant
            i <= annots@.len(),
            annots@ == old(annots)@,
            forall|j: int| 0 <= j < i ==> #[trigger] annots@[j].id@ != id@,
        ensures
            i <= annots@.len(),
            annots@ == old(annots)@,
            forall|j: int| 0 <= j < i ==> #[trigger] annots@[j].id@ != id@,
            i < annots@.len() ==> annots@[i as int].id@ == id@,
        decreases annots@.len() - i,
    {
        if str_eq(annots[i].id.as_str(), id) {
            break;
        }
        i = i + 1;
    }
    if i == annots.len() {
        proof {
            assert forall|k: int| !is_first_with_id(old(annots)@, id@, k) by {
                if is_first_with_id(old(annots)@, id@, k) {
                    assert(annots@[k].id@ != id@);
                }
            }
            if has_id(old(annots)@, id@) {
                let k = choose|k: int| 0 <= k < old(annots)@.len() && #[trigger] old(annots)@[k].id@ == id@;
                assert(annots@[k].id@ != id@);
            }
        }
        return false;
    }
    proof {
        reveal_strlit("");
        assert(""@ =~= Seq::<char>::empty());
        assert(t@.len() == 0 <==> t@ =~= ""@);
        assert(is_first_with_id(old(annots)@, id@, i as int));
        assert forall|k: int| is_first_with_id(old(annots)@, id@, k) implies k == i by {
            if k < i {
                assert(annots@[k].id@ != id@);
            }
            if k > i {
                assert(old(annots)@[i as int].id@ != id@);
            }
        }
    }
    let blank = str_eq(t.as_str(), "");
    let mut a = annots.remove(i);
    a.note = if blank { None } else { Some(t) };
    annots.insert(i, a);
    proof {
        assert(annots@[i as int] == a);
        assert(same_but_note(old(annots)@[i as int], annots@[i as int]));
        assert forall|j: int| 0 <= j < old(annots)@.len() && j != i implies annots@[j] == old(annots)@[j] by {
            if j < i {
            } else {
            }
        }
    }
    true
}

/// Why the annotations dialog does not open on `annots`: an empty list has nothing to show.
pub fn annotations_dialog_refusal(annots: &Vec<AnnotationInfo>) -> (r: Option<&'static str>)
    ensures
        annots@.len() == 0 ==> (r matches Some(m) && m@ == "No annotations for this entry"@),
        annots@.len() != 0 ==> r is None,
{
    if annots.len() == 0 {
        Some("No annotations for this entry")
    } else {
        None
    }
}

/// The text the new-note dialog starts with on 0-based page `page`, given the last text
/// selection (`selection_text`, made on page `selection_page`): the selection quoted with
/// its 1-based page number when it was made on this page, else nothing. The selection's
/// marked region is carried onto the note exactly when this is some.
pub fn note_prefill(selection_page: u16, selection_text: &str, page: u16) -> (r: Option<String>)
    ensures
        selection_page == page ==> (r matches Some(s) && s@ == "p. "@ + crate::text::decimal(page as nat + 1)
            + ": \""@ + selection_text@ + "\"\n\n"@),
        selection_page != page ==> r is None,
{
    if selection_page != page {
        return None;
    }
    let number = crate::text::decimal_string(page as u64 + 1);
    let s1 = concat_str("p. ", number.as_str());
    let s2 = concat_str(s1.as_str(), ": \"");
    let s3 = concat_str(s2.as_str(), selection_text);
    Some(concat_str(s3.as_str(), "\"\n\n"))
}

/// What the new-note dialog saves from its text `text`: the trimmed text, or the refusal
/// `Note is empty` when that is blank.
pub fn note_to_save(text: &str) -> (r: Result<String, &'static str>)
    ensures
        trim(text@).len() == 0 ==> (r matches Err(m) && m@ == "Note is empty"@),
        trim(text@).len() != 0 ==> (r matches Ok(t) && t@ == trim(text@)),
{
    let t = trim_str(text);
    proof {
        reveal_strlit("");
        assert(""@ =~= Seq::<char>::empty());
        assert(t@.len() == 0 <==> t@ =~= ""@);
    }
    if str_eq(t.as_str(), "") {
        Err("Note is empty")
    } else {
        Ok(t)
    }
}


/// The notice after saving a change: `done` on success, the error's own text otherwise.
pub open spec fn save_notice(saved: Result<(), String>, done: Seq<char>) -> Seq<char> {
    match saved {
        Ok(_) => done,
        Err(e) => e@,
    }
}

/// The notice after deleting an annotation and saving the result.
pub fn deleted_notice(saved: &Result<(), String>) -> (m: String)
    ensures
        m@ == save_notice(*saved, "Annotation deleted"@),
{
    match saved {
        Ok(_) => "Annotation deleted".to_owned(),
        Err(e) => e.clone(),
    }
}

/// The notice after adding a note from the new-note dialog and saving the result.
pub fn note_added_notice(saved: &Result<(), String>) -> (m: String)
    ensures
        m@ == save_notice(*saved, "Note added"@),
{
    match saved {
        Ok(_) => "Note added".to_owned(),
        Err(e) => e.clone(),
    }
}

/// The notice after adding an EPUB annotation from a selection and saving the result.
pub fn epub_added_notice(saved: &Result<(), String>) -> (m: String)
    ensures
        m@ == save_notice(*saved, "Added"@),
{
    match saved {
        Ok(_) => "Added".to_owned(),
        Err(e) => e.clone(),
    }
}

/// What a "Select text" drag in the PDF reader does with the text found under it: text that
/// is not blank is copied (`true`, `Copied to clipboard`); otherwise nothing is (`false`,
/// `No text found in selection`).
pub fn pdf_copy_selection(found: Option<&str>) -> (r: (bool, &'static str))
    ensures
        (match found {
            Some(t) => trim(t@).len() != 0,
            None => false,
        }) ==> (r.0 && r.1@ == "Copied to clipboard"@),
        !(match found {
            Some(t) => trim(t@).len() != 0,
            None => false,
        }) ==> (!r.0 && r.1@ == "No text found in selection"@),
{
    let copy = match found {
        Some(t) => !crate::text::is_blank(t),
        None => false,
    };
    if copy {
        (true, "Copied to clipboard")
    } else {
        (false, "No text found in selection")
    }
}

/// Whether a reported EPUB selection can be annotated: it is not empty and its text is not
/// blank.
pub open spec fn selection_usable(empty: bool, text: Option<String>) -> bool {
    !empty && match text {
        Some(t) => trim(t@).len() != 0,
        None => false,
    }
}

/// The snippet an EPUB annotation is made from, given what the page reported of its
/// selection (`empty`, and its `text` if any): the text when the selection is not empty and
/// the text not blank, else the refusal `Select some text first`.
pub fn epub_selection_snippet(empty: bool, text: Option<String>) -> (r: Result<String, &'static str>)
    ensures
        selection_usable(empty, text) ==> r == Ok::<String, &'static str>(text->0),
        !selection_usable(empty, text) ==> (r matches Err(m) && m@ == "Select some text first"@),
{
    match text {
        Some(t) => {
            if !empty && !crate::text::is_blank(t.as_str()) {
                Ok(t)
            } else {
                Err("Select some text first")
            }
        },
        None => Err("Select some text first"),
    }
}

} // verus!
