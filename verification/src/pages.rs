//! Page numbers in the PDF reader: the document's printed page labels versus raw 1-based
//! file positions, page navigation, and the page order continuous scrolling renders in.

use vstd::prelude::*;

use crate::text::{
    concat_str, decimal, decimal_string, lowercase, parse_i64, parse_i64_spec, parse_u16,
    parse_u16_spec, str_eq, str_lowercase, trim, trim_str,
};

verus! {

/// The printed labels of a document's pages, by 0-based page index.
pub open spec fn labels_view(labels: Seq<Option<String>>) -> Seq<Option<Seq<char>>> {
    Seq::new(
        labels.len(),
        |i: int|
            match labels[i] {
                Some(s) => Some(s@),
                None => None,
            },
    )
}

/// Whether page `i` is labelled exactly `t`.
pub open spec fn label_is(labels: Seq<Option<Seq<char>>>, i: int, t: Seq<char>) -> bool {
    labels[i] == Some(t)
}

/// Each printed label lowercased (no label stays no label).
pub open spec fn lowered_labels(labels: Seq<Option<Seq<char>>>) -> Seq<Option<Seq<char>>> {
    Seq::new(
        labels.len(),
        |i: int|
            match labels[i] {
                Some(l) => Some(str_lowercase(l)),
                None => None,
            },
    )
}

/// The first page labelled exactly `t`.
pub open spec fn first_exact(labels: Seq<Option<Seq<char>>>, t: Seq<char>) -> Option<int> {
    if exists|i: int| 0 <= i < labels.len() && label_is(labels, i, t) {
        Some(
            choose|i: int|
                0 <= i < labels.len() && label_is(labels, i, t) && forall|j: int|
                    0 <= j < i ==> !label_is(labels, j, t),
        )
    } else {
        None
    }
}

/// The 0-based page typed text `text` names, given the labels lowercased (`lowered`) and
/// the trimmed text lowercased (`lower`): ignoring surrounding whitespace, the first page
/// whose printed label is exactly the text, else the first whose lowercased label is
/// `lower`, else the text read as a raw 1-based page number. Blank text names no page.
pub open spec fn find_page_with(
    labels: Seq<Option<Seq<char>>>,
    lowered: Seq<Option<Seq<char>>>,
    text: Seq<char>,
    lower: Seq<char>,
) -> Option<u16> {
    let t = trim(text);
    if t.len() == 0 {
        None
    } else {
        match first_exact(labels, t) {
            Some(i) => Some(i as u16),
            None => match first_exact(lowered, lower) {
                Some(i) => Some(i as u16),
                None => match parse_u16_spec(t) {
                    Some(n) => if n >= 1 {
                        Some((n - 1) as u16)
                    } else {
                        None
                    },
                    None => None,
                },
            },
        }
    }
}

/// The 0-based page typed text `text` names: an exact label match, else a match ignoring
/// case (both sides lowercased), else a raw 1-based page number (see [`find_page_with`]).
pub open spec fn find_page_spec(labels: Seq<Option<Seq<char>>>, text: Seq<char>) -> Option<u16> {
    find_page_with(labels, lowered_labels(labels), text, str_lowercase(trim(text)))
}

proof fn lemma_no_exact_label(labels: Seq<Option<Seq<char>>>, t: Seq<char>)
    requires
        forall|i: int| 0 <= i < labels.len() ==> #[trigger] labels[i] != Some(t),
    ensures
        first_exact(labels, t) is None,
{
    if exists|i: int| 0 <= i < labels.len() && label_is(labels, i, t) {
        let i = choose|i: int| 0 <= i < labels.len() && label_is(labels, i, t);
        assert(labels[i] != Some(t));
    }
}

proof fn lemma_first_exact_found(labels: Seq<Option<Seq<char>>>, t: Seq<char>, w: int)
    requires
        0 <= w < labels.len(),
        label_is(labels, w, t),
    ensures
        first_exact(labels, t) is Some,
        0 <= first_exact(labels, t)->0 <= w,
        label_is(labels, first_exact(labels, t)->0, t),
    decreases w,
{
    if exists|m: int| 0 <= m < w && label_is(labels, m, t) {
        let m = choose|m: int| 0 <= m < w && label_is(labels, m, t);
        lemma_first_exact_found(labels, t, m);
    } else {
        assert(0 <= w < labels.len() && label_is(labels, w, t) && forall|m: int| 0 <= m < w ==> !label_is(labels, m, t));
    }
}

proof fn lemma_first_lowered(labels: Seq<Option<Seq<char>>>, lower: Seq<char>)
    requires
        exists|i: int| 0 <= i < labels.len() && #[trigger] labels[i] is Some && str_lowercase(labels[i]->0) == lower,
    ensures
        first_exact(lowered_labels(labels), lower) is Some,
        ({
            let i = first_exact(lowered_labels(labels), lower)->0;
            0 <= i < labels.len() && labels[i] is Some && str_lowercase(labels[i]->0) == lower
        }),
{
    let lw = lowered_labels(labels);
    let w = choose|i: int| 0 <= i < labels.len() && #[trigger] labels[i] is Some && str_lowercase(labels[i]->0) == lower;
    assert(lw[w] == Some(str_lowercase(labels[w]->0)));
    assert(label_is(lw, w, lower));
    lemma_first_exact_found(lw, lower, w);
    let i = first_exact(lw, lower)->0;
    assert(lw[i] == Some(lower));
    assert(lw[i] == (match labels[i] {
        Some(l) => Some(str_lowercase(l)),
        None => None,
    }));
}

/// Law: when no printed label is the typed text itself, case does not matter: two texts
/// that lowercase alike (after trimming) and that some page's lowercased label matches name
/// the same page, and that page's label lowercases to what was typed. So `IV` and `iv` both
/// go to the page labelled `iv`.
pub proof fn law_find_page_ignores_case(labels: Seq<Option<Seq<char>>>, t1: Seq<char>, t2: Seq<char>)
    requires
        trim(t1).len() != 0,
        trim(t2).len() != 0,
        str_lowercase(trim(t1)) == str_lowercase(trim(t2)),
        forall|i: int| 0 <= i < labels.len() ==> #[trigger] labels[i] != Some(trim(t1)) && labels[i] != Some(trim(t2)),
        exists|i: int| 0 <= i < labels.len() && #[trigger] labels[i] is Some && str_lowercase(labels[i]->0) == str_lowercase(trim(t1)),
    ensures
        find_page_spec(labels, t1) == find_page_spec(labels, t2),
        exists|i: int| 0 <= i < labels.len() && find_page_spec(labels, t1) == Some(i as u16) && #[trigger] labels[i] is Some
            && str_lowercase(labels[i]->0) == str_lowercase(trim(t1)),
{
    let lower = str_lowercase(trim(t1));
    assert forall|i: int| 0 <= i < labels.len() implies #[trigger] labels[i] != Some(trim(t1)) by {}
    assert forall|i: int| 0 <= i < labels.len() implies #[trigger] labels[i] != Some(trim(t2)) by {}
    lemma_no_exact_label(labels, trim(t1));
    lemma_no_exact_label(labels, trim(t2));
    lemma_first_lowered(labels, lower);
    let i = first_exact(lowered_labels(labels), lower)->0;
    assert(find_page_spec(labels, t1) == Some(i as u16));
    assert(find_page_spec(labels, t2) == Some(i as u16));
    assert(labels[i] is Some);
}

/// The first position of `labels` holding exactly `t`.
fn first_exact_exec(labels: &Vec<Option<String>>, t: &str) -> (r: Option<usize>)
    ensures
        match r {
            Some(i) => i < labels@.len() && first_exact(labels_view(labels@), t@) == Some(i as int),
            None => first_exact(labels_view(labels@), t@) is None,
        },
{
    let ghost lv = labels_view(labels@);
    let mut i: usize = 0;
    while i < labels.len()
        invariant
            lv == labels_view(labels@),
            i <= labels.len(),
            forall|j: int| 0 <= j < i ==> !label_is(lv, j, t@),
        decreases labels.len() - i,
    {
        match &labels[i] {
            Some(l) => {
                if str_eq(l.as_str(), t) {
                    proof {
                        assert(label_is(lv, i as int, t@));
                        let c = choose|c: int|
                            0 <= c < lv.len() && label_is(lv, c, t@) && forall|j: int|
                                0 <= j < c ==> !label_is(lv, j, t@);
                        if c > i {
                            assert(!label_is(lv, i as int, t@));
                        }
                    }
                    return Some(i);
                }
            },
            None => {
                proof {
                    assert(lv[i as int] is None);
                }
            },
        }
        i = i + 1;
    }
    proof {
        assert(!(exists|j: int| 0 <= j < lv.len() && label_is(lv, j, t@)));
    }
    None
}

/// The 0-based page typed text `text` names, given the labels already lowercased
/// (`lowered`, position for position) and the trimmed text lowercased (`lower`) (see
/// [`find_page_with`]).
pub fn find_page_given_lowercase(
    page_labels: &Vec<Option<String>>,
    lowered: &Vec<Option<String>>,
    text: &str,
    lower: &str,
) -> (r: Option<u16>)
    ensures
        r == find_page_with(labels_view(page_labels@), labels_view(lowered@), text@, lower@),
{
    let t = trim_str(text);
    if t.as_str().is_empty() {
        return None;
    }
    match first_exact_exec(page_labels, t.as_str()) {
        Some(i) => {
            return Some(#[verifier::truncate] (i as u16));
        },
        None => {},
    }
    match first_exact_exec(lowered, lower) {
        Some(i) => {
            return Some(#[verifier::truncate] (i as u16));
        },
        None => {},
    }
    match parse_u16(t.as_str()) {
        Some(n) => n.checked_sub(1),
        None => None,
    }
}

/// The 0-based page that the text typed into the page-number entry names (see
/// [`find_page_spec`]).
pub fn find_page_by_label(page_labels: &Vec<Option<String>>, text: &str) -> (r: Option<u16>)
    ensures
        r == find_page_spec(labels_view(page_labels@), text@),
{
    let mut lowered: Vec<Option<String>> = Vec::new();
    let mut i: usize = 0;
    while i < page_labels.len()
        invariant
            i <= page_labels@.len(),
            lowered@.len() == i,
            forall|j: int| 0 <= j < i ==> #[trigger] labels_view(lowered@)[j] == lowered_labels(labels_view(page_labels@))[j],
        decreases page_labels@.len() - i,
    {
        let l = match &page_labels[i] {
            Some(l) => Some(lowercase(l.as_str())),
            None => None,
        };
        let ghost before = lowered@;
        lowered.push(l);
        proof {
            assert forall|j: int| 0 <= j < i + 1 implies #[trigger] labels_view(lowered@)[j] == lowered_labels(labels_view(page_labels@))[j] by {
                if j < i {
                    assert(lowered@[j] == before[j]);
                    assert(labels_view(before)[j] == labels_view(lowered@)[j]);
                }
            }
        }
        i = i + 1;
    }
    proof {
        assert(labels_view(lowered@) =~= lowered_labels(labels_view(page_labels@)));
    }
    let t = trim_str(text);
    let lower = lowercase(t.as_str());
    find_page_given_lowercase(page_labels, &lowered, text, lower.as_str())
}

/// Whether the reader should ask its host for the manual page-numbering override: only when
/// the document defines no printed labels of its own.
pub fn needs_page_label_override(native: &Vec<Option<String>>) -> (r: bool)
    ensures
        r == !any_labelled(native@),
{
    let mut i: usize = 0;
    while i < native.len()
        invariant
            i <= native.len(),
            forall|j: int| 0 <= j < i ==> native@[j] is None,
        decreases native.len() - i,
    {
        if native[i].is_some() {
            return false;
        }
        i = i + 1;
    }
    true
}

/// The label shown for 1-based page `page_num`: its printed label if it has one, else the
/// number itself.
pub open spec fn printed_label_spec(labels: Seq<Option<Seq<char>>>, page_num: nat) -> Seq<char> {
    let idx = if page_num >= 1 { page_num - 1 } else { 0 };
    if idx < labels.len() && labels[idx as int] is Some {
        labels[idx as int]->0
    } else {
        decimal(page_num)
    }
}

/// The label shown for 1-based page `page_num` (see [`printed_label_spec`]).
pub fn printed_label(page_labels: &Vec<Option<String>>, page_num: u32) -> (s: String)
    ensures
        s@ == printed_label_spec(labels_view(page_labels@), page_num as nat),
{
    let idx: usize = page_num.saturating_sub(1) as usize;
    if idx < page_labels.len() {
        match &page_labels[idx] {
            Some(l) => {
                return l.clone();
            },
            None => {},
        }
    }
    decimal_string(page_num as u64)
}

/// What the page-number display shows for a page.
pub struct PageDisplay {
    /// The entry's text: the page's printed label, or its 1-based number.
    pub label: String,
    /// `of <count>`.
    pub of_text: String,
    /// `Page <n> of <count> in the file`, always the raw file position.
    pub tooltip: String,
    /// Whether there is a previous page.
    pub prev_enabled: bool,
    /// Whether there is a next page.
    pub next_enabled: bool,
}

/// The page-number display for 0-based page `page` of `count`.
pub fn page_display(page: u16, count: u16, page_labels: &Vec<Option<String>>) -> (d: PageDisplay)
    requires
        page < u16::MAX,
    ensures
        d.label@ == printed_label_spec(labels_view(page_labels@), page as nat + 1),
        d.of_text@ == "of "@ + decimal(count as nat),
        d.tooltip@ == "Page "@ + decimal(page as nat + 1) + " of "@ + decimal(count as nat) + " in the file"@,
        d.prev_enabled == (page > 0),
        d.next_enabled == (page + 1 < count),
{
    let raw = decimal_string((page + 1) as u64);
    let label = printed_label(page_labels, (page + 1) as u32);
    let count_text = decimal_string(count as u64);
    let of_text = concat_str("of ", count_text.as_str());
    let t1 = concat_str("Page ", raw.as_str());
    let t2 = concat_str(t1.as_str(), " of ");
    let t3 = concat_str(t2.as_str(), count_text.as_str());
    let tooltip = concat_str(t3.as_str(), " in the file");
    PageDisplay { label, of_text, tooltip, prev_enabled: page > 0, next_enabled: page + 1 < count }
}

/// The page count to use: the one the document reports, at least 1 (1 when it reports
/// none).
pub fn effective_page_count(reported: Option<u16>) -> (n: u16)
    ensures
        n == match reported {
            Some(c) => if c >= 1 { c } else { 1 },
            None => 1,
        },
{
    match reported {
        Some(c) => if c >= 1 { c } else { 1 },
        None => 1,
    }
}

/// The 0-based page a reader opens on for 1-based `start_page`, clamped into a document of
/// `count` pages (`0` stands for the first page too).
pub fn clamp_start_page(start_page: u32, count: u16) -> (p: u16)
    ensures
        ({
            let wanted: int = if start_page >= 1 { start_page - 1 } else { 0 };
            let last: int = if count >= 1 { count - 1 } else { 0 };
            p as int == if wanted < last { wanted } else { last }
        }),
{
    let wanted: u32 = start_page.saturating_sub(1);
    let last: u32 = count.saturating_sub(1) as u32;
    if wanted < last {
        wanted as u16
    } else {
        last as u16
    }
}

/// Whether some page has a printed label of the document's own.
pub open spec fn any_labelled(labels: Seq<Option<String>>) -> bool {
    exists|i: int| 0 <= i < labels.len() && labels[i] is Some
}

/// The page labels to show: the document's own when it defines any; otherwise the manual
/// numbering override applied to the document, when one is set; otherwise the (unlabelled)
/// document's own.
pub fn choose_page_labels(native: Vec<Option<String>>, overridden: Option<Vec<Option<String>>>) -> (labels:
    Vec<Option<String>>)
    ensures
        labels@ == (if any_labelled(native@) {
            native@
        } else {
            match overridden {
                Some(o) => o@,
                None => native@,
            }
        }),
{
    let mut i: usize = 0;
    while i < native.len()
        invariant
            i <= native.len(),
            forall|j: int| 0 <= j < i ==> native@[j] is None,
        decreases native.len() - i,
    {
        if native[i].is_some() {
            return native;
        }
        i = i + 1;
    }
    match overridden {
        Some(o) => o,
        None => native,
    }
}

} // verus!

verus! {

/// The index of the search match after `current` among `len`, wrapping to the first.
pub fn next_match_index(current: usize, len: usize) -> (n: usize)
    requires
        current < len,
    ensures
        n == (current + 1) % (len as int),
{
    (current + 1) % len
}

/// The index of the search match before `current` among `len`, wrapping to the last.
pub fn prev_match_index(current: usize, len: usize) -> (n: usize)
    requires
        current < len,
    ensures
        n == if current == 0 { len - 1 } else { current - 1 },
{
    if current == 0 {
        len - 1
    } else {
        current - 1
    }
}

/// Law: stepping to the next search match and back (or back and then on) returns to the
/// same match.
pub proof fn law_match_steps_invert(current: int, len: int)
    requires
        0 <= current < len,
    ensures
        ({
            let p = if current == 0 { len - 1 } else { current - 1 };
            (p + 1) % len == current
        }),
        ({
            let n = (current + 1) % len;
            (if n == 0 { len - 1 } else { n - 1 }) == current
        }),
{
    if current + 1 < len {
        assert((current + 1) % len == current + 1) by (nonlinear_arith)
            requires 0 <= current + 1 < len;
    } else {
        assert((current + 1) % len == 0) by (nonlinear_arith)
            requires current + 1 == len, len > 0;
    }
    if current > 0 {
        assert(current % len == current) by (nonlinear_arith)
            requires 0 <= current < len;
    } else {
        assert(len % len == 0) by (nonlinear_arith)
            requires len > 0;
    }
}

/// `<current + 1> of <len>`: which search match is shown.
pub fn match_position_text(current: usize, len: usize) -> (s: String)
    requires
        current < len,
    ensures
        s@ == decimal(current as nat + 1) + " of "@ + decimal(len as nat),
{
    let a = decimal_string((current + 1) as u64);
    let b = concat_str(a.as_str(), " of ");
    let c = decimal_string(len as u64);
    concat_str(b.as_str(), c.as_str())
}

/// The search-count text after a search for `query` found `count` matches: nothing for a
/// blank query with no matches, `No matches`, or `1 of <count>`.
pub fn search_summary(count: usize, query: &str) -> (s: String)
    ensures
        s@ == if count == 0 {
            if trim(query@).len() == 0 {
                Seq::<char>::empty()
            } else {
                "No matches"@
            }
        } else {
            "1 of "@ + decimal(count as nat)
        },
{
    if count == 0 {
        if crate::text::is_blank(query) {
            String::new()
        } else {
            "No matches".to_owned()
        }
    } else {
        let c = decimal_string(count as u64);
        concat_str("1 of ", c.as_str())
    }
}

/// How far page `p` is from page `c`.
pub open spec fn page_distance(p: int, c: int) -> int {
    if p >= c {
        p - c
    } else {
        c - p
    }
}

/// Page `a` renders before page `b`: it is nearer the current page `c`, or as near and
/// earlier in the document.
pub open spec fn renders_before(a: int, b: int, c: int) -> bool {
    page_distance(a, c) < page_distance(b, c) || (page_distance(a, c) == page_distance(b, c) && a < b)
}

/// The pages of a `count`-page document in the order continuous scrolling renders them:
/// every page once, nearest the current page `current` first, ties in document order.
pub open spec fn is_render_order(r: Seq<u16>, count: int, current: int) -> bool {
    &&& forall|i: int| 0 <= i < r.len() ==> (#[trigger] r[i]) < count
    &&& forall|i: int, j: int| 0 <= i < j < r.len() ==> renders_before(#[trigger] r[i] as int, #[trigger] r[j] as int, current)
    &&& forall|p: int| 0 <= p < count ==> #[trigger] r.contains(p as u16)
}

/// The order continuous scrolling renders a `count`-page document's pages in, starting
/// from page `current` (see [`is_render_order`]).
pub fn continuous_render_order(count: u16, current: u16) -> (r: Vec<u16>)
    ensures
        is_render_order(r@, count as int, current as int),
{
    let c = current as u32;
    let n = count as u32;
    let bound: u32 = if c > n { c } else { n };
    let mut r: Vec<u16> = Vec::new();
    let mut d: u32 = 0;
    while d <= bound
        invariant
            c == current as u32,
            n == count as u32,
            bound == if c > n { c } else { n },
            d <= bound + 1,
            forall|i: int| 0 <= i < r@.len() ==> (#[trigger] r@[i]) < n && page_distance(r@[i] as int, c as int) < d,
            forall|i: int, j: int| 0 <= i < j < r@.len() ==> renders_before(#[trigger] r@[i] as int, #[trigger] r@[j] as int, c as int),
            forall|p: int| 0 <= p < n && page_distance(p, c as int) < d ==> #[trigger] r@.contains(p as u16),
        decreases bound + 1 - d,
    {
        let ghost before = r@;
        if d == 0 {
            if c < n {
                r.push(c as u16);
                proof {
                    assert(r@[before.len() as int] == c as u16);
                    assert forall|p: int| 0 <= p < n && page_distance(p, c as int) < d + 1 implies #[trigger] r@.contains(p as u16) by {
                        assert(p == c);
                    }
                }
            }
        } else {
            if d <= c && c - d < n {
                r.push((c - d) as u16);
                proof {
                    assert(r@[before.len() as int] == (c - d) as u16);
                }
            }
            let ghost mid = r@;
            if c + d < n {
                r.push((c + d) as u16);
                proof {
                    assert(r@[mid.len() as int] == (c + d) as u16);
                }
            }
            proof {
                assert forall|p: int| 0 <= p < n && page_distance(p, c as int) < d + 1 implies #[trigger] r@.contains(p as u16) by {
                    if page_distance(p, c as int) < d {
                        assert(before.contains(p as u16));
                        let k = choose|k: int| 0 <= k < before.len() && before[k] == p as u16;
                        assert(r@[k] == before[k]);
                    } else if p < c {
                        assert(p == c - d);
                        assert(r@[before.len() as int] == p as u16);
                    } else {
                        assert(p == c + d);
                        assert(r@[mid.len() as int] == p as u16);
                    }
                }
            }
        }
        d = d + 1;
    }
    proof {
        assert forall|p: int| 0 <= p < count implies #[trigger] r@.contains(p as u16) by {
            assert(page_distance(p, c as int) < d);
        }
    }
    r
}


/// What the page-numbering dialog's entry asks for.
#[derive(Debug, Clone, Copy, PartialEq, Eq, Structural)]
pub enum PageNumbering {
    /// A blank entry: drop the manual numbering.
    Clear,
    /// Number the pages so that 1-based page `start_page` is labelled `start_label`.
    Number { start_page: u32, start_label: i64 },
    /// Not a whole number: nothing changes.
    Invalid,
}

/// The page-numbering dialog, confirmed on 0-based page `page` with entry text `text`: a
/// blank entry (after trimming) clears the numbering, a whole number `n` numbers the current
/// page `n`, anything else is refused.
pub fn page_numbering(text: &str, page: u16) -> (r: PageNumbering)
    ensures
        trim(text@).len() == 0 ==> r == PageNumbering::Clear,
        trim(text@).len() != 0 ==> r == match parse_i64_spec(trim(text@)) {
            Some(n) => PageNumbering::Number { start_page: (page + 1) as u32, start_label: n },
            None => PageNumbering::Invalid,
        },
{
    let t = trim_str(text);
    proof {
        reveal_strlit("");
        assert(""@ =~= Seq::<char>::empty());
        assert(t@.len() == 0 <==> t@ =~= ""@);
    }
    if str_eq(t.as_str(), "") {
        return PageNumbering::Clear;
    }
    match parse_i64(t.as_str()) {
        Some(n) => PageNumbering::Number { start_page: page as u32 + 1, start_label: n },
        None => PageNumbering::Invalid,
    }
}

impl PageNumbering {
    /// The confirmation (or refusal) the dialog shows.
    pub fn message(&self) -> (m: &'static str)
        ensures
            m@ == match *self {
                PageNumbering::Clear => "Page numbering cleared"@,
                PageNumbering::Number { .. } => "Page numbering set"@,
                PageNumbering::Invalid => "Enter a whole number, or leave blank to clear"@,
            },
    {
        match self {
            PageNumbering::Clear => "Page numbering cleared",
            PageNumbering::Number { .. } => "Page numbering set",
            PageNumbering::Invalid => "Enter a whole number, or leave blank to clear",
        }
    }
}


/// The page labels the reader shows after the page-numbering dialog: a cleared numbering
/// leaves no labels at all, a new numbering shows `applied` (that numbering applied to the
/// document's pages), and a refused entry leaves the labels as they were (`current`).
pub fn labels_after_numbering(
    numbering: PageNumbering,
    current: Vec<Option<String>>,
    applied: Vec<Option<String>>,
) -> (r: Vec<Option<String>>)
    ensures
        r@ == match numbering {
            PageNumbering::Clear => Seq::<Option<String>>::empty(),
            PageNumbering::Number { .. } => applied@,
            PageNumbering::Invalid => current@,
        },
{
    match numbering {
        PageNumbering::Clear => Vec::new(),
        PageNumbering::Number { .. } => applied,
        PageNumbering::Invalid => current,
    }
}

/// The page the page-number entry goes to when text `text` is entered in a document of
/// `count` pages: the page it names (see [`find_page_spec`]) when that is one of the
/// document's pages, else the notice `No such page`.
pub fn page_entry_target(page_labels: &Vec<Option<String>>, text: &str, count: u16) -> (r: Result<u16, &'static str>)
    ensures
        match find_page_spec(labels_view(page_labels@), text@) {
            Some(p) => if p < count {
                r == Ok::<u16, &'static str>(p)
            } else {
                r matches Err(m) && m@ == "No such page"@
            },
            None => r matches Err(m) && m@ == "No such page"@,
        },
{
    match find_page_by_label(page_labels, text) {
        Some(p) => if p < count {
            Ok(p)
        } else {
            Err("No such page")
        },
        None => Err("No such page"),
    }
}

} // verus!
