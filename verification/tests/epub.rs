use pereplyot::epub::{
    cache_key, chapter_display, go_to_index, restores_scroll, spine_position, split_target, start_index,
    AnnotationAnchor,
};

fn spine() -> Vec<String> {
    vec!["OEBPS/ch1.xhtml".into(), "OEBPS/ch2.xhtml".into(), "OEBPS/ch3.xhtml".into()]
}

#[test]
fn targets_split_at_first_hash() {
    assert_eq!(split_target("OEBPS/ch2.xhtml#sec1"), ("OEBPS/ch2.xhtml".to_string(), Some("sec1".to_string())));
    assert_eq!(split_target("a#b#c"), ("a".to_string(), Some("b#c".to_string())));
    assert_eq!(split_target("OEBPS/ch2.xhtml"), ("OEBPS/ch2.xhtml".to_string(), None));
}

#[test]
fn navigation_updates_chapter_only_for_known_paths() {
    assert_eq!(go_to_index(&spine(), 0, "OEBPS/ch3.xhtml#x"), 2);
    assert_eq!(go_to_index(&spine(), 1, "OEBPS/missing.xhtml"), 1);
    assert_eq!(spine_position(&spine(), "OEBPS/ch2.xhtml"), Some(1));
    assert_eq!(spine_position(&spine(), "nope"), None);
}

#[test]
fn chapter_labels() {
    let d = chapter_display(0, 3);
    assert_eq!(d.label, "Chapter 1 of 3");
    assert!(!d.prev_enabled);
    assert!(d.next_enabled);
    let d = chapter_display(2, 3);
    assert!(d.prev_enabled);
    assert!(!d.next_enabled);
}

#[test]
fn cache_key_drops_algorithm_prefix() {
    assert_eq!(cache_key("blake3:abcd"), "abcd");
    assert_eq!(cache_key("abcd"), "abcd");
    assert_eq!(cache_key("a:b:c"), "b:c");
}

fn anchors() -> Vec<AnnotationAnchor> {
    vec![
        AnnotationAnchor { id: "n1".into(), chapter: Some("OEBPS/ch3.xhtml".into()) },
        AnnotationAnchor { id: "n2".into(), chapter: None },
        AnnotationAnchor { id: "n3".into(), chapter: Some("OEBPS/gone.xhtml".into()) },
    ]
}

#[test]
fn start_chapter_prefers_annotation_then_progress() {
    assert_eq!(start_index(&spine(), &anchors(), Some("n1"), Some(2)), 2);
    assert_eq!(start_index(&spine(), &anchors(), Some("n2"), Some(2)), 1);
    assert_eq!(start_index(&spine(), &anchors(), Some("n3"), None), 0);
    assert_eq!(start_index(&spine(), &anchors(), None, Some(3)), 2);
    assert_eq!(start_index(&spine(), &anchors(), None, Some(9)), 0);
    assert_eq!(start_index(&spine(), &anchors(), None, Some(0)), 0);
    assert_eq!(start_index(&spine(), &anchors(), None, None), 0);
}

#[test]
fn scroll_restored_only_on_saved_chapter() {
    assert!(restores_scroll(false, Some(2), 1));
    assert!(!restores_scroll(false, Some(2), 0));
    assert!(!restores_scroll(true, Some(2), 1));
    assert!(!restores_scroll(false, None, 0));
    assert!(restores_scroll(false, Some(0), 0));
}
