use pereplyot::history::DocKind as HistoryKind;
use pereplyot::library::{library_path, Library, LibraryEntry};
use pereplyot::recents::{data_dir, recents_path, DocKind, RecentEntry, Recents, MAX_RECENTS};

fn recent(hash: &str) -> RecentEntry {
    RecentEntry {
        hash: hash.to_string(),
        path: format!("/d/{hash}"),
        title: hash.to_uppercase(),
        kind: DocKind::Pdf,
        last_opened: "2026-03-04T05:06:07Z".to_string(),
    }
}

fn kept(hash: &str) -> LibraryEntry {
    LibraryEntry {
        hash: hash.to_string(),
        path: format!("/d/{hash}"),
        title: hash.to_string(),
        kind: HistoryKind::Epub,
        added_at: "2026-03-04T05:06:07Z".to_string(),
    }
}

#[test]
fn touch_moves_to_front_and_caps() {
    let mut r = Recents::new();
    for i in 0..25 {
        r.touch(recent(&format!("d{i}")));
    }
    assert_eq!(r.entries().len(), MAX_RECENTS);
    assert_eq!(r.entries()[0].hash, "d24");
    assert_eq!(r.entries()[MAX_RECENTS - 1].hash, "d5");
    r.touch(recent("d10"));
    assert_eq!(r.entries()[0].hash, "d10");
    assert_eq!(r.entries().len(), MAX_RECENTS);
    assert_eq!(r.entries().iter().filter(|e| e.hash == "d10").count(), 1);
    assert_eq!(r.entries()[1].hash, "d24");
}

#[test]
fn library_add_is_once_only() {
    let mut l = Library::new();
    assert!(l.add(kept("a")));
    assert!(l.add(kept("b")));
    assert!(!l.add(kept("a")));
    assert_eq!(l.entries().len(), 2);
    assert!(l.contains("a"));
    assert!(!l.contains("c"));
}

#[test]
fn library_remove_undoes_add() {
    let mut l = Library::new();
    l.add(kept("a"));
    l.add(kept("b"));
    l.add(kept("c"));
    l.remove("b");
    assert!(!l.contains("b"));
    let left: Vec<&str> = l.entries().iter().map(|e| e.hash.as_str()).collect();
    assert_eq!(left, vec!["a", "c"]);
    l.remove("zzz");
    assert_eq!(l.entries().len(), 2);
}

#[test]
fn store_paths() {
    assert_eq!(data_dir("/home/u/.local/share"), "/home/u/.local/share/pereplyot");
    assert_eq!(recents_path("/home/u/.local/share"), "/home/u/.local/share/pereplyot/recents.json");
    assert_eq!(library_path("/home/u/.local/share"), "/home/u/.local/share/pereplyot/library.json");
}
