use pereplyot::book_search::{chapter_matches, epub_search_whole_book, lowered_pieces, EPUB_WHOLE_BOOK_MATCH_LIMIT};

#[test]
fn finds_matches_case_insensitively_with_context() {
    let texts = vec!["The cat sat.".to_string(), "No felines here.".to_string(), "CAT and cat".to_string()];
    let m = epub_search_whole_book(&texts, "Cat");
    assert_eq!(m.len(), 3);
    assert_eq!(m[0].chapter, 0);
    assert_eq!(m[0].snippet, "The cat sat.");
    assert_eq!(&m[0].snippet[m[0].match_start..m[0].match_end], "cat");
    assert_eq!(m[1].chapter, 2);
    assert_eq!(&m[1].snippet[m[1].match_start..m[1].match_end], "CAT");
    assert_eq!(m[2].chapter, 2);
    assert_eq!(m[2].match_start, 8);
}

#[test]
fn blank_query_finds_nothing() {
    let texts = vec!["abc".to_string()];
    assert_eq!(epub_search_whole_book(&texts, "  ").len(), 0);
    assert_eq!(epub_search_whole_book(&texts, "").len(), 0);
}

#[test]
fn context_is_fifty_characters_each_side() {
    let text = format!("{}needle{}", "é".repeat(80), "x".repeat(80));
    let m = epub_search_whole_book(&vec![text], "NEEDLE");
    assert_eq!(m.len(), 1);
    let s = &m[0].snippet;
    assert_eq!(s.chars().count(), 50 + 6 + 50);
    assert_eq!(&s[m[0].match_start..m[0].match_end], "needle");
    assert_eq!(m[0].match_start, 100);
}

#[test]
fn stops_at_the_limit() {
    let texts = vec!["a".repeat(150), "a".repeat(150)];
    let m = epub_search_whole_book(&texts, "a");
    assert_eq!(m.len(), EPUB_WHOLE_BOOK_MATCH_LIMIT);
    assert_eq!(m[149].chapter, 0);
    assert_eq!(m[150].chapter, 1);
}

#[test]
fn matches_do_not_overlap() {
    let m = epub_search_whole_book(&vec!["aaaa".to_string()], "aa");
    assert_eq!(m.len(), 2);
    assert_eq!(m[0].match_start, 0);
    assert_eq!(m[1].match_start, 2);
}

#[test]
fn longer_lowercase_forms_still_find_hits() {
    // 'İ' is 2 bytes and lowercases to the 3-byte "i\u{307}".
    let texts = vec!["İx".to_string(), "and x again".to_string()];
    let m = epub_search_whole_book(&texts, "x");
    assert_eq!(m.len(), 2);
    assert_eq!(m[0].chapter, 0);
    assert_eq!(m[0].snippet, "İx");
    assert_eq!(&m[0].snippet[m[0].match_start..m[0].match_end], "x");
    assert_eq!(m[1].chapter, 1);
    // A hit inside an expanded character covers the whole character as written.
    let i = epub_search_whole_book(&vec!["aİb".to_string()], "i");
    assert_eq!(i.len(), 1);
    assert_eq!(&i[0].snippet[i[0].match_start..i[0].match_end], "İ");
    let upper = epub_search_whole_book(&vec!["xİX".to_string()], "İX");
    assert_eq!(upper.len(), 1);
    assert_eq!(&upper[0].snippet[upper[0].match_start..upper[0].match_end], "İX");
}

#[test]
fn chapter_search_on_given_pieces() {
    let pieces = vec!["i\u{307}".to_string(), "x".to_string()];
    let m = chapter_matches(3, "İx", &pieces, "i\u{307}x", "x", 10);
    assert_eq!(m.len(), 1);
    assert_eq!(m[0].chapter, 3);
    assert_eq!((m[0].match_start, m[0].match_end), (2, 3));
    let m = chapter_matches(0, "İx", &pieces, "i\u{307}x", "\u{307}x", 10);
    assert_eq!((m[0].match_start, m[0].match_end), (0, 3));
    assert_eq!(chapter_matches(0, "İx", &pieces, "i\u{307}x", "x", 0).len(), 0);
}

#[test]
fn per_character_lowercase() {
    let p = lowered_pieces("AİΣb");
    assert_eq!(p, vec!["a".to_string(), "i\u{307}".to_string(), "σ".to_string(), "b".to_string()]);
}

#[test]
fn final_sigma_matches_as_in_whole_text_lowercase() {
    // The whole text lowercases its word-final capital sigma to 'ς'.
    let texts = vec!["ΟΔΟΣ ΧΑΣ".to_string()];
    let m = epub_search_whole_book(&texts, "οδος");
    assert_eq!(m.len(), 1);
    assert_eq!(&m[0].snippet[m[0].match_start..m[0].match_end], "ΟΔΟΣ");
    assert_eq!(epub_search_whole_book(&texts, "ΟΔΟΣ").len(), 1);
    assert_eq!(epub_search_whole_book(&vec!["οδος".to_string()], "ΟΔΟΣ").len(), 1);
}

#[test]
fn excerpts_are_trimmed_to_whitespace() {
    let text = format!("{}needle{}", "abcdefghij ".repeat(10), " klmnopqrst".repeat(10));
    let m = epub_search_whole_book(&vec![text], "needle");
    assert_eq!(m.len(), 1);
    let s = &m[0].snippet;
    assert!(s.starts_with("abcdefghij "));
    assert!(s.ends_with(" klmnopqrst"));
    assert_eq!(s.chars().count(), 94);
    assert_eq!(m[0].match_start, 44);
    assert_eq!(&s[m[0].match_start..m[0].match_end], "needle");
}
