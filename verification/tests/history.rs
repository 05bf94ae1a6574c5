use pereplyot::history::{history_path, record_open, DocKind, HistoryEntry, MAX_ENTRIES};

fn entry(hash: &str, title: &str) -> HistoryEntry {
    HistoryEntry {
        hash: hash.to_string(),
        path: format!("/books/{title}.pdf"),
        title: title.to_string(),
        kind: DocKind::Pdf,
        last_opened: "2026-01-01T00:00:00+00:00".to_string(),
    }
}

fn hashes(v: &[HistoryEntry]) -> Vec<String> {
    v.iter().map(|e| e.hash.clone()).collect()
}

#[test]
fn record_open_puts_new_document_first() {
    let log = vec![entry("a", "A"), entry("b", "B")];
    let out = record_open(log, DocKind::Epub, "c", "/books/c.epub", "C", "2026-02-02T10:00:00+00:00".to_string());
    assert_eq!(hashes(&out), vec!["c", "a", "b"]);
    assert_eq!(out[0].path, "/books/c.epub");
    assert_eq!(out[0].title, "C");
    assert_eq!(out[0].kind, DocKind::Epub);
    assert_eq!(out[0].last_opened, "2026-02-02T10:00:00+00:00");
}

#[test]
fn record_open_moves_existing_document_to_front() {
    let log = vec![entry("a", "A"), entry("b", "B"), entry("c", "C")];
    let out = record_open(log, DocKind::Pdf, "b", "/new/place.pdf", "B2", "t".to_string());
    assert_eq!(hashes(&out), vec!["b", "a", "c"]);
    assert_eq!(out[0].path, "/new/place.pdf");
    assert_eq!(out[0].title, "B2");
}

#[test]
fn record_open_caps_the_log() {
    let log: Vec<HistoryEntry> = (0..MAX_ENTRIES).map(|i| entry(&format!("h{i}"), "x")).collect();
    let out = record_open(log, DocKind::Pdf, "new", "/p", "t", "now".to_string());
    assert_eq!(out.len(), MAX_ENTRIES);
    assert_eq!(out[0].hash, "new");
    assert_eq!(out[1].hash, "h0");
    assert_eq!(out[MAX_ENTRIES - 1].hash, format!("h{}", MAX_ENTRIES - 2));
}

#[test]
fn record_open_twice_is_same_as_once() {
    let log = vec![entry("a", "A"), entry("b", "B")];
    let once = record_open(log, DocKind::Pdf, "b", "/b", "B", "t".to_string());
    let once_hashes = hashes(&once);
    let twice = record_open(once, DocKind::Pdf, "b", "/b", "B", "t".to_string());
    assert_eq!(hashes(&twice), once_hashes);
}

#[test]
fn record_open_on_empty_log() {
    let out = record_open(Vec::new(), DocKind::Pdf, "x", "/x", "X", "t".to_string());
    assert_eq!(hashes(&out), vec!["x"]);
}

#[test]
fn history_path_is_under_home() {
    assert_eq!(history_path("/home/ann"), "/home/ann/.local/share/pereplyot/recents.json");
    assert_eq!(history_path("/home/ann/"), "/home/ann/.local/share/pereplyot/recents.json");
}
