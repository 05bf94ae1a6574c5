use pereplyot::annotations::{
    added_message, annotation_heading, deleted_notice, epub_added_notice, epub_selection_snippet,
    note_added_notice, pdf_copy_selection, annotations_dialog_refusal, commit_note, note_prefill, note_to_save, annotation_location, chapter_number, delete_annotation,
    edit_note, epub_highlight_payload, epub_notes_order, kind_name, path_file_name,
    pdf_notes_order, AnnotationInfo, AnnotationKind,
};
use pereplyot::ordering::order_by_page;

fn ann(id: &str, page: Option<u32>, chapter: Option<&str>, created: &str) -> AnnotationInfo {
    AnnotationInfo {
        id: id.to_string(),
        kind: AnnotationKind::Highlight,
        page,
        chapter: chapter.map(|c| c.to_string()),
        snippet: Some(format!("text of {id}")),
        snippet_prefix: None,
        snippet_suffix: Some("after".to_string()),
        color: Some("#f6c344".to_string()),
        created: created.to_string(),
        note: None,
    }
}

#[test]
fn pdf_notes_by_page_then_time() {
    let a = vec![
        ann("a", Some(3), None, "2026-01-02"),
        ann("b", None, Some("c1"), "2026-01-01"),
        ann("c", Some(1), None, "2026-01-05"),
        ann("d", Some(3), None, "2026-01-01"),
        ann("e", Some(1), None, "2026-01-05"),
    ];
    assert_eq!(pdf_notes_order(&a), vec![2, 4, 3, 0]);
}

#[test]
fn epub_notes_by_chapter_then_time() {
    let spine = vec!["c1".to_string(), "c2".to_string()];
    let a = vec![
        ann("a", None, Some("c2"), "2026-01-01"),
        ann("b", None, Some("gone"), "2026-01-01"),
        ann("c", None, Some("c1"), "2026-01-09"),
        ann("d", Some(2), None, "2026-01-01"),
        ann("e", None, Some("c1"), "2026-01-03"),
    ];
    assert_eq!(epub_notes_order(&a, &spine), vec![4, 2, 0, 1]);
    assert_eq!(chapter_number(&spine, "c2"), 2);
    assert_eq!(chapter_number(&spine, "gone"), 0);
}

#[test]
fn dialog_sorts_by_page_stably() {
    assert_eq!(order_by_page(&vec![Some(5), None, Some(2), Some(5), None]), vec![1, 4, 2, 0, 3]);
}

#[test]
fn payload_keeps_chapter_annotations_with_snippets() {
    let mut a = vec![
        ann("a", None, Some("c1"), "t"),
        ann("b", None, Some("c2"), "t"),
        ann("c", None, Some("c1"), "t"),
    ];
    a[2].snippet = None;
    a.push(ann("d", None, Some("c1"), "t"));
    let p = epub_highlight_payload(&a, "c1");
    let ids: Vec<&str> = p.iter().map(|x| x.id.as_str()).collect();
    assert_eq!(ids, vec!["a", "d"]);
    assert_eq!(p[0].snippet, "text of a");
    assert_eq!(p[0].suffix.as_deref(), Some("after"));
    assert_eq!(p[0].prefix, None);
    assert_eq!(p[0].color.as_deref(), Some("#f6c344"));
}

#[test]
fn kind_labels() {
    assert_eq!(kind_name(AnnotationKind::Strikeout), "Strikeout");
    assert_eq!(kind_name(AnnotationKind::Note), "Note");
    assert_eq!(added_message(AnnotationKind::Underline), "Underline added");
    assert_eq!(added_message(AnnotationKind::Note), "Annotation added");
}

#[test]
fn file_name_matches_path_semantics() {
    assert_eq!(path_file_name("OEBPS/Text/ch01.xhtml").as_deref(), Some("ch01.xhtml"));
    assert_eq!(path_file_name("ch01.xhtml").as_deref(), Some("ch01.xhtml"));
    assert_eq!(path_file_name("OEBPS/Text/").as_deref(), Some("Text"));
    assert_eq!(path_file_name("foo.txt/.").as_deref(), Some("foo.txt"));
    assert_eq!(path_file_name("a//.//").as_deref(), Some("a"));
    assert_eq!(path_file_name("foo.txt/.."), None);
    assert_eq!(path_file_name("/"), None);
    assert_eq!(path_file_name(""), None);
    assert_eq!(path_file_name("."), None);
    assert_eq!(path_file_name("./."), None);
    assert_eq!(path_file_name(".hidden").as_deref(), Some(".hidden"));
    for p in ["a/b", "a/b/", "/x/y.z", "./q", "a/./b", "..", "a/..", "x/../y", "//", "./", "a/.b/."] {
        let expected = std::path::Path::new(p)
            .file_name()
            .map(|f| f.to_string_lossy().into_owned());
        assert_eq!(path_file_name(p), expected, "path {p:?}");
    }
}

#[test]
fn location_text_by_format() {
    let labels = vec![Some("iv".to_string()), None, Some("1".to_string())];
    let pdf = ann("a", Some(1), None, "t");
    assert_eq!(annotation_location(&pdf, &labels), "Page iv");
    let unlabelled = ann("b", Some(2), None, "t");
    assert_eq!(annotation_location(&unlabelled, &labels), "Page 2");
    let beyond = ann("c", Some(7), None, "t");
    assert_eq!(annotation_location(&beyond, &labels), "Page 7");
    let zero = ann("z", Some(0), None, "t");
    assert_eq!(annotation_location(&zero, &labels), "Page iv");
    let epub = ann("d", None, Some("OEBPS/Text/ch02.xhtml"), "t");
    assert_eq!(annotation_location(&epub, &labels), "ch02.xhtml");
    let odd = ann("e", None, Some(".."), "t");
    assert_eq!(annotation_location(&odd, &labels), "..");
    let nowhere = ann("f", None, None, "t");
    assert_eq!(annotation_location(&nowhere, &labels), "Unknown location");
    let mut underline = ann("g", Some(3), None, "t");
    underline.kind = AnnotationKind::Underline;
    assert_eq!(annotation_heading(&underline, &labels), "Page 1 · Underline");
}

#[test]
fn editing_a_note() {
    let mut a = vec![ann("x", Some(1), None, "t"), ann("y", Some(2), None, "t"), ann("y", Some(5), None, "t")];
    assert!(edit_note(&mut a, "y", "  remember this \n"));
    assert_eq!(a[1].note.as_deref(), Some("remember this"));
    assert_eq!(a[2].note, None);
    assert_eq!(a[0].note, None);
    assert_eq!(a[1].page, Some(2));
    // The same text again changes nothing.
    assert!(!edit_note(&mut a, "y", "remember this"));
    // Clearing the field removes the note.
    assert!(edit_note(&mut a, "y", "   "));
    assert_eq!(a[1].note, None);
    // A blank field on an annotation without a note is no edit.
    assert!(!edit_note(&mut a, "x", ""));
    // An unknown id: the edit goes ahead only for non-blank text, and nothing changes.
    assert!(edit_note(&mut a, "nope", "text"));
    assert!(!edit_note(&mut a, "nope", " "));
    assert!(a.iter().all(|x| x.note.is_none()));
}

#[test]
fn deleting_an_annotation() {
    let mut a = vec![
        ann("x", Some(1), None, "t"),
        ann("y", Some(2), None, "t"),
        ann("z", Some(3), None, "t"),
        ann("y", Some(4), None, "t"),
    ];
    delete_annotation(&mut a, "y");
    let ids: Vec<&str> = a.iter().map(|x| x.id.as_str()).collect();
    assert_eq!(ids, vec!["x", "z"]);
    delete_annotation(&mut a, "absent");
    assert_eq!(a.len(), 2);
}

#[test]
fn dialog_commits_notes() {
    let mut a = vec![ann("x", Some(1), None, "t"), ann("y", Some(2), None, "t"), ann("y", Some(3), None, "t")];
    assert!(commit_note(&mut a, "y", "  keep  "));
    assert_eq!(a[1].note.as_deref(), Some("keep"));
    assert_eq!(a[2].note, None);
    // Committing the same text again still finds it (and the dialog saves again).
    assert!(commit_note(&mut a, "y", "keep"));
    assert_eq!(a[1].note.as_deref(), Some("keep"));
    // A stored empty note becomes none when blank text is committed.
    a[0].note = Some(String::new());
    assert!(commit_note(&mut a, "x", "   "));
    assert_eq!(a[0].note, None);
    // An unknown id changes nothing and saves nothing.
    assert!(!commit_note(&mut a, "missing", "text"));
    assert_eq!(a[1].note.as_deref(), Some("keep"));
    assert_eq!(a.len(), 3);
}

#[test]
fn dialog_refuses_an_empty_list() {
    assert_eq!(annotations_dialog_refusal(&vec![]), Some("No annotations for this entry"));
    assert_eq!(annotations_dialog_refusal(&vec![ann("x", Some(1), None, "t")]), None);
}

#[test]
fn new_note_dialog() {
    assert_eq!(note_prefill(4, "quoted words", 4).as_deref(), Some("p. 5: \"quoted words\"\n\n"));
    assert_eq!(note_prefill(3, "quoted words", 4), None);
    assert_eq!(note_to_save("  a note \n"), Ok("a note".to_string()));
    assert_eq!(note_to_save(" \n "), Err("Note is empty"));
}

#[test]
fn save_notices() {
    assert_eq!(deleted_notice(&Ok(())), "Annotation deleted");
    assert_eq!(deleted_notice(&Err("disk full".to_string())), "disk full");
    assert_eq!(note_added_notice(&Ok(())), "Note added");
    assert_eq!(note_added_notice(&Err("nope".to_string())), "nope");
    assert_eq!(epub_added_notice(&Ok(())), "Added");
}

#[test]
fn selections() {
    assert_eq!(pdf_copy_selection(Some(" some text ")), (true, "Copied to clipboard"));
    assert_eq!(pdf_copy_selection(Some("  ")), (false, "No text found in selection"));
    assert_eq!(pdf_copy_selection(None), (false, "No text found in selection"));
    assert_eq!(epub_selection_snippet(false, Some(" a word ".to_string())), Ok(" a word ".to_string()));
    assert_eq!(epub_selection_snippet(true, Some("word".to_string())), Err("Select some text first"));
    assert_eq!(epub_selection_snippet(false, Some(" ".to_string())), Err("Select some text first"));
    assert_eq!(epub_selection_snippet(false, None), Err("Select some text first"));
}
