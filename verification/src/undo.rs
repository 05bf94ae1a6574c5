//! Snapshot undo/redo for a reader's annotations: before every change the current
//! annotations are pushed onto the undo stack; undoing swaps the current value with the
//! last snapshot, keeping the current one for redo.

use vstd::prelude::*;

verus! {

/// How many undo steps a reader session keeps before dropping the oldest.
pub const UNDO_HISTORY_LIMIT: usize = 50;

/// The undo and redo stacks of one reader session, most recent snapshot last.
pub struct UndoHistory<T> {
    pub undo_stack: Vec<T>,
    pub redo_stack: Vec<T>,
}

/// The undo stack after pushing `snapshot`: appended, and the oldest dropped if the stack
/// then holds more than [`UNDO_HISTORY_LIMIT`] snapshots.
pub open spec fn pushed<T>(undo: Seq<T>, snapshot: T) -> Seq<T> {
    if undo.len() + 1 > UNDO_HISTORY_LIMIT {
        undo.push(snapshot).drop_first()
    } else {
        undo.push(snapshot)
    }
}

/// The stacks and current value after stepping back: the last snapshot of `from` becomes
/// current and the old current value goes onto `to`. Nothing changes when `from` is empty.
pub open spec fn stepped<T>(from: Seq<T>, to: Seq<T>, current: T) -> (Seq<T>, Seq<T>, T) {
    if from.len() == 0 {
        (from, to, current)
    } else {
        (from.drop_last(), to.push(current), from.last())
    }
}

impl<T> UndoHistory<T> {
    /// Empty stacks.
    pub fn new() -> (h: Self)
        ensures
            h.undo_stack@ == Seq::<T>::empty(),
            h.redo_stack@ == Seq::<T>::empty(),
    {
        UndoHistory { undo_stack: Vec::new(), redo_stack: Vec::new() }
    }

    /// Record `snapshot` (the value about to be changed) so the change can be undone. A fresh
    /// change makes any pending redo meaningless, so the redo stack is cleared.
    pub fn push_snapshot(&mut self, snapshot: T)
        ensures
            final(self).undo_stack@ == pushed(old(self).undo_stack@, snapshot),
            final(self).redo_stack@ == Seq::<T>::empty(),
    {
        self.undo_stack.push(snapshot);
        if self.undo_stack.len() > UNDO_HISTORY_LIMIT {
            self.undo_stack.remove(0);
        }
        self.redo_stack.clear();
    }

    /// Undo the last change to `current`; reports whether there was one to undo.
    pub fn undo(&mut self, current: &mut T) -> (done: bool)
        ensures
            done == (old(self).undo_stack@.len() > 0),
            (final(self).undo_stack@, final(self).redo_stack@, *final(current)) == stepped(
                old(self).undo_stack@,
                old(self).redo_stack@,
                *old(current),
            ),
    {
        match self.undo_stack.pop() {
            Some(prev) => {
                let mut value = prev;
                std::mem::swap(current, &mut value);
                self.redo_stack.push(value);
                true
            },
            None => false,
        }
    }

    /// Redo the last undone change to `current`; reports whether there was one to redo.
    pub fn redo(&mut self, current: &mut T) -> (done: bool)
        ensures
            done == (old(self).redo_stack@.len() > 0),
            (final(self).redo_stack@, final(self).undo_stack@, *final(current)) == stepped(
                old(self).redo_stack@,
                old(self).undo_stack@,
                *old(current),
            ),
    {
        match self.redo_stack.pop() {
            Some(next) => {
                let mut value = next;
                std::mem::swap(current, &mut value);
                self.undo_stack.push(value);
                true
            },
            None => false,
        }
    }

    /// Whether there is a change to undo (the Undo button's sensitivity).
    pub fn can_undo(&self) -> (r: bool)
        ensures
            r == (self.undo_stack@.len() > 0),
    {
        !self.undo_stack.is_empty()
    }

    /// Whether there is an undone change to redo (the Redo button's sensitivity).
    pub fn can_redo(&self) -> (r: bool)
        ensures
            r == (self.redo_stack@.len() > 0),
    {
        !self.redo_stack.is_empty()
    }
}

/// The notice after the Undo action: `done` tells whether there was a change to undo, and
/// `saved` how writing the restored annotations went.
pub fn undo_notice(done: bool, saved: &Result<(), String>) -> (m: String)
    ensures
        !done ==> m@ == "Nothing to undo"@,
        done ==> match saved {
            Ok(_) => m@ == "Undid last annotation change"@,
            Err(e) => m@ == "Could not undo: "@ + e@,
        },
{
    if !done {
        return "Nothing to undo".to_owned();
    }
    match saved {
        Ok(_) => "Undid last annotation change".to_owned(),
        Err(e) => crate::text::concat_str("Could not undo: ", e.as_str()),
    }
}

/// The notice after the Redo action: `done` tells whether there was a change to redo, and
/// `saved` how writing the restored annotations went.
pub fn redo_notice(done: bool, saved: &Result<(), String>) -> (m: String)
    ensures
        !done ==> m@ == "Nothing to redo"@,
        done ==> match saved {
            Ok(_) => m@ == "Redid annotation change"@,
            Err(e) => m@ == "Could not redo: "@ + e@,
        },
{
    if !done {
        return "Nothing to redo".to_owned();
    }
    match saved {
        Ok(_) => "Redid annotation change".to_owned(),
        Err(e) => crate::text::concat_str("Could not redo: ", e.as_str()),
    }
}

}

verus! {

/// Law: undoing a change and then redoing it gives back the stacks and the value as they
/// were before the undo.
pub proof fn law_redo_after_undo<T>(undo: Seq<T>, redo: Seq<T>, current: T)
    requires
        undo.len() > 0,
    ensures
        ({
            let (u1, r1, c1) = stepped(undo, redo, current);
            let (r2, u2, c2) = stepped(r1, u1, c1);
            u2 == undo && r2 == redo && c2 == current
        }),
{
    assert(undo.drop_last().push(undo.last()) =~= undo);
    assert(redo.push(current).drop_last() =~= redo);
}

/// Law: redoing an undone change and then undoing it again gives back the stacks and the
/// value as they were before the redo.
pub proof fn law_undo_after_redo<T>(undo: Seq<T>, redo: Seq<T>, current: T)
    requires
        redo.len() > 0,
    ensures
        ({
            let (r1, u1, c1) = stepped(redo, undo, current);
            let (u2, r2, c2) = stepped(u1, r1, c1);
            u2 == undo && r2 == redo && c2 == current
        }),
{
    assert(redo.drop_last().push(redo.last()) =~= redo);
    assert(undo.push(current).drop_last() =~= undo);
}

/// Law: undo right after recording a snapshot brings that snapshot back.
pub proof fn law_undo_restores_snapshot<T>(undo: Seq<T>, snapshot: T, current: T)
    ensures
        stepped(pushed(undo, snapshot), Seq::<T>::empty(), current).2 == snapshot,
{
}

/// Law: the two stacks together never hold more than [`UNDO_HISTORY_LIMIT`] snapshots,
/// whatever sequence of changes, undos and redos is made.
pub proof fn law_history_bounded<T>(undo: Seq<T>, redo: Seq<T>, snapshot: T, current: T)
    requires
        undo.len() + redo.len() <= UNDO_HISTORY_LIMIT,
    ensures
        pushed(undo, snapshot).len() <= UNDO_HISTORY_LIMIT,
        ({
            let (u, r, _c) = stepped(undo, redo, current);
            u.len() + r.len() <= UNDO_HISTORY_LIMIT
        }),
        ({
            let (r, u, _c) = stepped(redo, undo, current);
            u.len() + r.len() <= UNDO_HISTORY_LIMIT
        }),
{
}

} // verus!
