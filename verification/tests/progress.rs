use pereplyot::progress::{epub_close_progress, pdf_close_progress, pdf_start_page, ReadingProgress};

#[test]
fn pdf_saves_one_based_page() {
    let p = pdf_close_progress(0, 12);
    assert_eq!(p, ReadingProgress { page: 1, of: 12, chapter_percent: None });
    assert_eq!(pdf_close_progress(11, 12).page, 12);
}

#[test]
fn epub_saves_chapter_and_clamped_percent() {
    assert_eq!(
        epub_close_progress(2, 9, Some(42)),
        ReadingProgress { page: 3, of: 9, chapter_percent: Some(42) }
    );
    assert_eq!(epub_close_progress(0, 9, Some(150)).chapter_percent, Some(100));
    assert_eq!(epub_close_progress(0, 9, Some(-7)).chapter_percent, Some(0));
    assert_eq!(epub_close_progress(0, 9, None).chapter_percent, Some(0));
}

#[test]
fn pdf_resumes_saved_page() {
    assert_eq!(pdf_start_page(None), 1);
    assert_eq!(pdf_start_page(Some(ReadingProgress { page: 7, of: 9, chapter_percent: None })), 7);
}
