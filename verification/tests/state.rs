use pereplyot::registry::ReaderRegistry;
use pereplyot::undo::{redo_notice, undo_notice, UndoHistory, UNDO_HISTORY_LIMIT};

#[test]
fn registry_finds_registered_reader() {
    let mut r: ReaderRegistry<u32> = ReaderRegistry::new();
    assert!(r.is_empty());
    r.register_reader("h1", 10);
    r.register_reader("h2", 20);
    assert_eq!(r.existing_reader("h1"), Some(&10));
    assert_eq!(r.existing_reader("h2"), Some(&20));
    assert_eq!(r.existing_reader("h3"), None);
    r.register_reader("h1", 11);
    assert_eq!(r.existing_reader("h1"), Some(&11));
    assert!(!r.unregister_window("h1"));
    assert_eq!(r.existing_reader("h1"), None);
    assert_eq!(r.existing_reader("h2"), Some(&20));
    assert!(r.unregister_window("h2"));
    assert!(r.unregister_window("never"));
    assert!(r.is_empty());
}

#[test]
fn undo_then_redo_round_trips() {
    let mut h: UndoHistory<Vec<u8>> = UndoHistory::new();
    let mut current = vec![1];
    h.push_snapshot(current.clone());
    current.push(2);
    h.push_snapshot(current.clone());
    current.push(3);
    assert!(h.can_undo());
    assert!(!h.can_redo());
    assert!(h.undo(&mut current));
    assert_eq!(current, vec![1, 2]);
    assert!(h.undo(&mut current));
    assert_eq!(current, vec![1]);
    assert!(!h.undo(&mut current));
    assert_eq!(current, vec![1]);
    assert!(h.redo(&mut current));
    assert_eq!(current, vec![1, 2]);
    assert!(h.redo(&mut current));
    assert_eq!(current, vec![1, 2, 3]);
    assert!(!h.redo(&mut current));
}

#[test]
fn new_change_clears_redo() {
    let mut h: UndoHistory<u32> = UndoHistory::new();
    let mut current = 0;
    h.push_snapshot(current);
    current = 1;
    assert!(h.undo(&mut current));
    assert!(h.can_redo());
    h.push_snapshot(current);
    assert!(!h.can_redo());
}

#[test]
fn undo_history_is_capped() {
    let mut h: UndoHistory<usize> = UndoHistory::new();
    for i in 0..(UNDO_HISTORY_LIMIT + 10) {
        h.push_snapshot(i);
    }
    assert_eq!(h.undo_stack.len(), UNDO_HISTORY_LIMIT);
    assert_eq!(h.undo_stack[0], 10);
}

#[test]
fn undo_and_redo_notices() {
    assert_eq!(undo_notice(false, &Ok(())), "Nothing to undo");
    assert_eq!(undo_notice(true, &Ok(())), "Undid last annotation change");
    assert_eq!(undo_notice(true, &Err("locked".to_string())), "Could not undo: locked");
    assert_eq!(redo_notice(false, &Ok(())), "Nothing to redo");
    assert_eq!(redo_notice(true, &Ok(())), "Redid annotation change");
    assert_eq!(redo_notice(true, &Err("locked".to_string())), "Could not redo: locked");
}
