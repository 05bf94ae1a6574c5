use pereplyot::pages::{
    choose_page_labels, clamp_start_page, labels_after_numbering, page_entry_target, find_page_given_lowercase, needs_page_label_override, continuous_render_order, effective_page_count, find_page_by_label,
    match_position_text, next_match_index, page_display, page_numbering, prev_match_index, printed_label,
    search_summary, PageNumbering,
};
use pereplyot::text::parse_i64;

fn labels(a: &[Option<&str>]) -> Vec<Option<String>> {
    a.iter().map(|l| l.map(|s| s.to_string())).collect()
}

#[test]
fn find_page_prefers_exact_label() {
    let l = labels(&[Some("i"), Some("ii"), Some("1"), Some("2"), Some("3")]);
    assert_eq!(find_page_by_label(&l, "ii"), Some(1));
    assert_eq!(find_page_by_label(&l, "2"), Some(3));
    assert_eq!(find_page_by_label(&l, "  1 "), Some(2));
}

#[test]
fn find_page_ignores_case_second() {
    let l = labels(&[Some("i"), Some("II"), None, Some("ii")]);
    assert_eq!(find_page_by_label(&l, "ii"), Some(3));
    let l = labels(&[Some("i"), Some("II"), None]);
    assert_eq!(find_page_by_label(&l, "ii"), Some(1));
}

#[test]
fn find_page_falls_back_to_raw_number() {
    let l = labels(&[None, None, None]);
    assert_eq!(find_page_by_label(&l, "3"), Some(2));
    assert_eq!(find_page_by_label(&l, "+3"), Some(2));
    assert_eq!(find_page_by_label(&l, "0"), None);
    assert_eq!(find_page_by_label(&l, "-1"), None);
    assert_eq!(find_page_by_label(&l, "70000"), None);
    assert_eq!(find_page_by_label(&l, "65535"), Some(65534));
    assert_eq!(find_page_by_label(&l, "x"), None);
    assert_eq!(find_page_by_label(&l, "+"), None);
    assert_eq!(find_page_by_label(&l, "   "), None);
    assert_eq!(find_page_by_label(&l, ""), None);
}

#[test]
fn printed_label_uses_labels_then_number() {
    let l = labels(&[Some("xi"), None]);
    assert_eq!(printed_label(&l, 1), "xi");
    assert_eq!(printed_label(&l, 2), "2");
    assert_eq!(printed_label(&l, 7), "7");
    assert_eq!(printed_label(&l, 0), "xi");
}

#[test]
fn page_display_texts() {
    let l = labels(&[Some("i"), None, None]);
    let d = page_display(0, 3, &l);
    assert_eq!(d.label, "i");
    assert_eq!(d.of_text, "of 3");
    assert_eq!(d.tooltip, "Page 1 of 3 in the file");
    assert!(!d.prev_enabled);
    assert!(d.next_enabled);
    let d = page_display(2, 3, &l);
    assert_eq!(d.label, "3");
    assert!(d.prev_enabled);
    assert!(!d.next_enabled);
}

#[test]
fn start_page_is_clamped() {
    assert_eq!(clamp_start_page(1, 10), 0);
    assert_eq!(clamp_start_page(0, 10), 0);
    assert_eq!(clamp_start_page(5, 10), 4);
    assert_eq!(clamp_start_page(99, 10), 9);
    assert_eq!(clamp_start_page(3, 0), 0);
    assert_eq!(effective_page_count(Some(0)), 1);
    assert_eq!(effective_page_count(None), 1);
    assert_eq!(effective_page_count(Some(12)), 12);
}

#[test]
fn native_labels_win_over_override() {
    let native = labels(&[None, Some("a")]);
    let over = Some(labels(&[Some("1"), Some("2")]));
    assert_eq!(choose_page_labels(native.clone(), over), native);
    let none = labels(&[None, None]);
    let over = labels(&[Some("1"), Some("2")]);
    assert_eq!(choose_page_labels(none.clone(), Some(over.clone())), over);
    assert_eq!(choose_page_labels(none.clone(), None), none);
}

#[test]
fn search_match_cycling() {
    assert_eq!(next_match_index(0, 3), 1);
    assert_eq!(next_match_index(2, 3), 0);
    assert_eq!(prev_match_index(0, 3), 2);
    assert_eq!(prev_match_index(2, 3), 1);
    for i in 0..5 {
        assert_eq!(prev_match_index(next_match_index(i, 5), 5), i);
        assert_eq!(next_match_index(prev_match_index(i, 5), 5), i);
    }
    assert_eq!(match_position_text(1, 4), "2 of 4");
    assert_eq!(search_summary(0, "  "), "");
    assert_eq!(search_summary(0, "cat"), "No matches");
    assert_eq!(search_summary(7, "cat"), "1 of 7");
}

#[test]
fn render_order_nearest_first() {
    assert_eq!(continuous_render_order(6, 2), vec![2, 1, 3, 0, 4, 5]);
    assert_eq!(continuous_render_order(4, 0), vec![0, 1, 2, 3]);
    assert_eq!(continuous_render_order(4, 3), vec![3, 2, 1, 0]);
    assert_eq!(continuous_render_order(0, 0), Vec::<u16>::new());
    assert_eq!(continuous_render_order(3, 9), vec![2, 1, 0]);
}

#[test]
fn render_order_matches_a_stable_sort() {
    for count in 0u16..12 {
        for current in 0u16..14 {
            let mut expected: Vec<u16> = (0..count).collect();
            expected.sort_by_key(|&p| (p as i32 - current as i32).unsigned_abs());
            assert_eq!(continuous_render_order(count, current), expected);
        }
    }
}

#[test]
fn page_numbering_entry() {
    assert_eq!(page_numbering("   ", 4), PageNumbering::Clear);
    assert_eq!(page_numbering("", 0), PageNumbering::Clear);
    assert_eq!(page_numbering(" 12 ", 4), PageNumbering::Number { start_page: 5, start_label: 12 });
    assert_eq!(page_numbering("-3", 0), PageNumbering::Number { start_page: 1, start_label: -3 });
    assert_eq!(page_numbering("+7", 1), PageNumbering::Number { start_page: 2, start_label: 7 });
    assert_eq!(page_numbering("xii", 4), PageNumbering::Invalid);
    assert_eq!(page_numbering("1 2", 4), PageNumbering::Invalid);
    assert_eq!(page_numbering("-", 4), PageNumbering::Invalid);
    assert_eq!(PageNumbering::Clear.message(), "Page numbering cleared");
    assert_eq!(page_numbering("3", 0).message(), "Page numbering set");
    assert_eq!(PageNumbering::Invalid.message(), "Enter a whole number, or leave blank to clear");
}

#[test]
fn parses_i64_like_from_str() {
    for s in [
        "0", "-0", "+0", "42", "-42", "9223372036854775807", "9223372036854775808",
        "-9223372036854775808", "-9223372036854775809", "", "+", "-", "--1", "+-1", "1_000",
        "99999999999999999999999", "007", " 1",
    ] {
        assert_eq!(parse_i64(s), s.parse::<i64>().ok(), "input {s:?}");
    }
}

#[test]
fn page_lookup_on_given_lowercase() {
    let l = labels(&[Some("IV"), Some("V")]);
    // The lowercased forms are taken as given.
    let lowered = labels(&[Some("four"), Some("v")]);
    assert_eq!(find_page_given_lowercase(&l, &lowered, " V ", "v"), Some(1));
    assert_eq!(find_page_given_lowercase(&l, &lowered, "x", "four"), Some(0));
    assert_eq!(find_page_given_lowercase(&l, &lowered, "2", "2"), Some(1));
    assert_eq!(find_page_given_lowercase(&l, &lowered, "  ", ""), None);
}

#[test]
fn override_asked_only_without_native_labels() {
    assert!(needs_page_label_override(&labels(&[None, None])));
    assert!(needs_page_label_override(&labels(&[])));
    assert!(!needs_page_label_override(&labels(&[None, Some("ii")])));
}

#[test]
fn numbering_dialog_updates_labels() {
    let current = labels(&[Some("i"), Some("ii")]);
    let applied = labels(&[Some("5"), Some("6")]);
    assert_eq!(labels_after_numbering(PageNumbering::Clear, current.clone(), applied.clone()), Vec::<Option<String>>::new());
    assert_eq!(
        labels_after_numbering(PageNumbering::Number { start_page: 1, start_label: 5 }, current.clone(), applied.clone()),
        applied
    );
    assert_eq!(labels_after_numbering(PageNumbering::Invalid, current.clone(), applied), current);
}

#[test]
fn page_entry_goes_to_existing_pages_only() {
    let l = labels(&[Some("i"), Some("ii"), Some("1")]);
    assert_eq!(page_entry_target(&l, "ii", 3), Ok(1));
    assert_eq!(page_entry_target(&l, "9", 3), Err("No such page"));
    assert_eq!(page_entry_target(&l, "zz", 3), Err("No such page"));
    assert_eq!(page_entry_target(&l, "3", 3), Ok(2));
}
