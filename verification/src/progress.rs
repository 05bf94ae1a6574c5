//! Reading positions: what a reader saves when it closes, and where the next opening of the
//! document starts from it.

use vstd::prelude::*;

verus! {

/// A saved reading position: 1-based page (PDF) or chapter (EPUB) `page` of `of`, and for
/// an EPUB how far down the chapter the reader had scrolled, in percent.
#[derive(Debug, Clone, Copy, PartialEq, Eq, Structural)]
pub struct ReadingProgress {
    pub page: u32,
    pub of: u32,
    pub chapter_percent: Option<u8>,
}

/// The position a PDF reader saves on closing while showing 0-based page `page` of `count`.
pub fn pdf_close_progress(page: u16, count: u16) -> (p: ReadingProgress)
    ensures
        p.page == page + 1,
        p.of == count,
        p.chapter_percent is None,
{
    ReadingProgress { page: page as u32 + 1, of: count as u32, chapter_percent: None }
}

/// The scroll percentage an EPUB reader saves: what the page reported, held to `0..=100`,
/// or 0 when it reported nothing.
pub open spec fn clamped_percent(reported: Option<i32>) -> u8 {
    match reported {
        Some(v) => if v < 0 {
            0
        } else if v > 100 {
            100
        } else {
            v as u8
        },
        None => 0,
    }
}

/// The position an EPUB reader saves on closing while showing 0-based chapter `index` of a
/// spine of `spine_len` chapters, scrolled `reported` percent down it (none when the page
/// could not say). Chapter numbers are kept as `u32`.
pub fn epub_close_progress(index: usize, spine_len: usize, reported: Option<i32>) -> (p: ReadingProgress)
    requires
        (index as u32) < u32::MAX,
    ensures
        p.page == (index as u32) + 1,
        p.of == spine_len as u32,
        p.chapter_percent == Some(clamped_percent(reported)),
{
    let percent: u8 = match reported {
        Some(v) => if v < 0 {
            0
        } else if v > 100 {
            100
        } else {
            v as u8
        },
        None => 0,
    };
    ReadingProgress { page: index as u32 + 1, of: spine_len as u32, chapter_percent: Some(percent) }
}

/// The 1-based page a PDF reader opens on: the saved position's page, else the first.
pub fn pdf_start_page(saved: Option<ReadingProgress>) -> (page: u32)
    ensures
        page == match saved {
            Some(p) => p.page,
            None => 1,
        },
{
    match saved {
        Some(p) => p.page,
        None => 1,
    }
}

} // verus!
