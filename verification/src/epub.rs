//! EPUB reading positions: an EPUB has no fixed page grid, so a position is a chapter (an
//! index into the book's spine, its chapter files in reading order) plus a scroll fraction
//! within it.

use vstd::prelude::*;

use crate::text::{chars_of, concat_str, decimal, decimal_string, str_eq, string_of_range};

verus! {

/// The first position of `path` in `spine`.
pub open spec fn spine_position_spec(spine: Seq<Seq<char>>, path: Seq<char>) -> Option<int> {
    if exists|i: int| 0 <= i < spine.len() && spine[i] == path {
        Some(choose|i: int| 0 <= i < spine.len() && spine[i] == path && forall|j: int| 0 <= j < i ==> spine[j] != path)
    } else {
        None
    }
}

/// The characters of each chapter path.
pub open spec fn spine_view(spine: Seq<String>) -> Seq<Seq<char>> {
    Seq::new(spine.len(), |i: int| spine[i]@)
}

/// The index of chapter file `path` in `spine`, if it is one of the book's chapters.
pub fn spine_position(spine: &Vec<String>, path: &str) -> (r: Option<usize>)
    ensures
        match r {
            Some(i) => i < spine@.len() && spine_position_spec(spine_view(spine@), path@) == Some(i as int),
            None => spine_position_spec(spine_view(spine@), path@) is None,
        },
{
    let ghost sv = spine_view(spine@);
    let mut i: usize = 0;
    while i < spine.len()
        invariant
            sv == spine_view(spine@),
            i <= spine.len(),
            forall|j: int| 0 <= j < i ==> sv[j] != path@,
        decreases spine.len() - i,
    {
        if str_eq(spine[i].as_str(), path) {
            proof {
                assert(sv[i as int] == path@);
                let c = choose|c: int| 0 <= c < sv.len() && sv[c] == path@ && forall|j: int| 0 <= j < c ==> sv[j] != path@;
                if c > i {
                    assert(sv[i as int] != path@);
                }
            }
            return Some(i);
        }
        i = i + 1;
    }
    None
}

/// The first position of character `c` in `s`.
pub open spec fn char_position(s: Seq<char>, c: char) -> Option<int> {
    if exists|i: int| 0 <= i < s.len() && s[i] == c {
        Some(choose|i: int| 0 <= i < s.len() && s[i] == c && forall|j: int| 0 <= j < i ==> s[j] != c)
    } else {
        None
    }
}

fn find_char(v: &Vec<char>, c: char) -> (r: Option<usize>)
    ensures
        match r {
            Some(i) => i < v@.len() && v@[i as int] == c && char_position(v@, c) == Some(i as int),
            None => char_position(v@, c) is None,
        },
{
    let mut i: usize = 0;
    while i < v.len()
        invariant
            i <= v.len(),
            forall|j: int| 0 <= j < i ==> v@[j] != c,
        decreases v.len() - i,
    {
        if v[i] == c {
            proof {
                let k = choose|k: int| 0 <= k < v@.len() && v@[k] == c && forall|j: int| 0 <= j < k ==> v@[j] != c;
                if k > i {
                    assert(v@[i as int] != c);
                }
            }
            return Some(i);
        }
        i = i + 1;
    }
    None
}

/// `s` split at its first `sep` (which belongs to neither part), if it has one
/// (`str::split_once`).
pub open spec fn split_once_spec(s: Seq<char>, sep: char) -> Option<(Seq<char>, Seq<char>)> {
    match char_position(s, sep) {
        Some(i) => Some((s.take(i), s.skip(i + 1))),
        None => None,
    }
}

/// A chapter target split into its chapter path and optional `#fragment` anchor.
pub fn split_target(target: &str) -> (r: (String, Option<String>))
    ensures
        match split_once_spec(target@, '#') {
            Some((p, f)) => r.0@ == p && (r.1 matches Some(x) && x@ == f),
            None => r.0@ == target@ && r.1 is None,
        },
{
    let c = chars_of(target);
    match find_char(&c, '#') {
        Some(i) => {
            let p = string_of_range(&c, 0, i);
            let f = string_of_range(&c, i + 1, c.len());
            proof {
                assert(c@.subrange(0, i as int) =~= target@.take(i as int));
                assert(c@.subrange(i + 1, c@.len() as int) =~= target@.skip(i + 1));
            }
            (p, Some(f))
        },
        None => (target.to_owned(), None),
    }
}

/// The chapter index after navigating to `target` from chapter `index`: the target's
/// chapter when its path (fragment removed) is one of the book's chapters, else unchanged.
pub fn go_to_index(spine: &Vec<String>, index: usize, target: &str) -> (r: usize)
    ensures
        ({
            let path = match split_once_spec(target@, '#') {
                Some((p, _f)) => p,
                None => target@,
            };
            match spine_position_spec(spine_view(spine@), path) {
                Some(i) => r == i,
                None => r == index,
            }
        }),
{
    let (path, _fragment) = split_target(target);
    match spine_position(spine, path.as_str()) {
        Some(i) => i,
        None => index,
    }
}

/// What the chapter navigation shows for chapter `index` of `len`.
pub struct ChapterDisplay {
    /// `Chapter <index + 1> of <len>`.
    pub label: String,
    /// Whether there is a previous chapter.
    pub prev_enabled: bool,
    /// Whether there is a next chapter.
    pub next_enabled: bool,
}

/// The chapter navigation display for chapter `index` of a `len`-chapter book.
pub fn chapter_display(index: usize, len: usize) -> (d: ChapterDisplay)
    requires
        index < usize::MAX,
    ensures
        d.label@ == "Chapter "@ + decimal(index as nat + 1) + " of "@ + decimal(len as nat),
        d.prev_enabled == (index > 0),
        d.next_enabled == (index + 1 < len),
{
    let a = decimal_string((index + 1) as u64);
    let b = concat_str("Chapter ", a.as_str());
    let c = concat_str(b.as_str(), " of ");
    let n = decimal_string(len as u64);
    let label = concat_str(c.as_str(), n.as_str());
    ChapterDisplay { label, prev_enabled: index > 0, next_enabled: index + 1 < len }
}

/// The directory name an EPUB's extracted contents are cached under: its content hash,
/// without any `<algorithm>:` prefix.
pub fn cache_key(hash: &str) -> (k: String)
    ensures
        k@ == match split_once_spec(hash@, ':') {
            Some((_a, h)) => h,
            None => hash@,
        },
{
    let c = chars_of(hash);
    match find_char(&c, ':') {
        Some(i) => {
            proof {
                assert(c@.subrange(i + 1, c@.len() as int) =~= hash@.skip(i + 1));
            }
            let n = c.len();
            string_of_range(&c, i + 1, n)
        },
        None => hash.to_owned(),
    }
}

/// Where an annotation sits in an EPUB: its id and, for an EPUB annotation, its chapter.
pub struct AnnotationAnchor {
    pub id: String,
    pub chapter: Option<String>,
}

/// The first anchor with id `id`.
pub open spec fn anchor_with_id(anchors: Seq<AnnotationAnchor>, id: Seq<char>) -> Option<int> {
    if exists|i: int| 0 <= i < anchors.len() && anchors[i].id@ == id {
        Some(choose|i: int| 0 <= i < anchors.len() && anchors[i].id@ == id && forall|j: int| 0 <= j < i ==> anchors[j].id@ != id)
    } else {
        None
    }
}

/// The chapter an EPUB reader opens on: the chapter of the annotation it was asked to show
/// (when that annotation is found, has a chapter, and the chapter is in the book);
/// otherwise the saved reading position's chapter (its 1-based `page`), when that is in the
/// book; otherwise the first chapter.
pub open spec fn start_index_spec(
    spine: Seq<Seq<char>>,
    anchors: Seq<AnnotationAnchor>,
    start_annotation_id: Option<Seq<char>>,
    progress_page: Option<u32>,
) -> int {
    let from_annotation = match start_annotation_id {
        Some(id) => match anchor_with_id(anchors, id) {
            Some(a) => match anchors[a].chapter {
                Some(ch) => spine_position_spec(spine, ch@),
                None => None,
            },
            None => None,
        },
        None => None,
    };
    match from_annotation {
        Some(i) => i,
        None => match progress_page {
            Some(p) => {
                let idx: int = if p >= 1 { p - 1 } else { 0 };
                if idx < spine.len() { idx } else { 0 }
            },
            None => 0,
        },
    }
}

fn find_anchor(anchors: &Vec<AnnotationAnchor>, id: &str) -> (r: Option<usize>)
    ensures
        match r {
            Some(i) => i < anchors@.len() && anchor_with_id(anchors@, id@) == Some(i as int),
            None => anchor_with_id(anchors@, id@) is None,
        },
{
    let mut i: usize = 0;
    while i < anchors.len()
        invariant
            i <= anchors.len(),
            forall|j: int| 0 <= j < i ==> anchors@[j].id@ != id@,
        decreases anchors.len() - i,
    {
        if str_eq(anchors[i].id.as_str(), id) {
            proof {
                let k = choose|k: int| 0 <= k < anchors@.len() && anchors@[k].id@ == id@ && forall|j: int| 0 <= j < k ==> anchors@[j].id@ != id@;
                if k > i {
                    assert(anchors@[i as int].id@ != id@);
                }
            }
            return Some(i);
        }
        i = i + 1;
    }
    None
}

/// The chapter index an EPUB reader opens on (see [`start_index_spec`]).
pub fn start_index(
    spine: &Vec<String>,
    anchors: &Vec<AnnotationAnchor>,
    start_annotation_id: Option<&str>,
    progress_page: Option<u32>,
) -> (r: usize)
    ensures
        r == start_index_spec(
            spine_view(spine@),
            anchors@,
            match start_annotation_id { Some(s) => Some(s@), None => None },
            progress_page,
        ),
{
    let mut from_annotation: Option<usize> = None;
    if let Some(id) = start_annotation_id {
        if let Some(a) = find_anchor(anchors, id) {
            if let Some(ch) = &anchors[a].chapter {
                from_annotation = spine_position(spine, ch.as_str());
            }
        }
    }
    match from_annotation {
        Some(i) => i,
        None => match progress_page {
            Some(p) => {
                let idx: usize = p.saturating_sub(1) as usize;
                if idx < spine.len() { idx } else { 0 }
            },
            None => 0,
        },
    }
}

/// Whether the saved scroll fraction within the chapter should be restored: only when the
/// reader opens at its saved position (not on an annotation) and that position's chapter is
/// the one being opened.
pub fn restores_scroll(start_annotation_given: bool, progress_page: Option<u32>, start_index: usize) -> (r: bool)
    ensures
        r == (!start_annotation_given && match progress_page {
            Some(p) => (if p >= 1 { p - 1 } else { 0 }) == start_index,
            None => false,
        }),
{
    if start_annotation_given {
        return false;
    }
    match progress_page {
        Some(p) => (p.saturating_sub(1) as usize) == start_index,
        None => false,
    }
}

} // verus!
