//! The launcher window's decisions: whether to show it for a command-line invocation, when
//! to close it once every reader is gone, and what to call a newly opened document.

use vstd::prelude::*;

use crate::text::{concat_str, decimal, decimal_string};

verus! {

/// Whether the launcher window has really been shown to the user this session.
pub struct LauncherSession {
    pub launcher_shown: bool,
}

impl LauncherSession {
    /// A fresh session: nothing shown yet.
    pub fn new() -> (s: Self)
        ensures
            !s.launcher_shown,
    {
        LauncherSession { launcher_shown: false }
    }

    /// A command-line invocation arrived: a bare one (`is_launcher`) shows the launcher and
    /// marks it shown; one that opens a file shows it only if it was already shown (so
    /// opening a file on a fresh process does not present a launcher nobody asked for).
    /// Reports whether to present the launcher window.
    pub fn on_command_line(&mut self, is_launcher: bool) -> (present: bool)
        ensures
            final(self).launcher_shown == (old(self).launcher_shown || is_launcher),
            present == (old(self).launcher_shown || is_launcher),
    {
        if is_launcher {
            self.launcher_shown = true;
        }
        self.launcher_shown
    }

    /// Every reader has closed: reports whether to close the launcher too, which is so
    /// only when it was never really shown.
    pub fn close_launcher_when_readers_closed(&self) -> (close: bool)
        ensures
            close == !self.launcher_shown,
    {
        !self.launcher_shown
    }
}

/// The title a newly opened document is listed under: the title read from the document when
/// it has a non-empty one, else the file name without its extension, else `Untitled`.
pub fn resolve_title(sniffed: Option<String>, file_stem: Option<String>) -> (t: String)
    ensures
        t@ == match sniffed {
            Some(s) => if s@.len() > 0 {
                s@
            } else {
                match file_stem {
                    Some(f) => f@,
                    None => "Untitled"@,
                }
            },
            None => match file_stem {
                Some(f) => f@,
                None => "Untitled"@,
            },
        },
{
    if let Some(s) = sniffed {
        if !s.as_str().is_empty() {
            return s;
        }
    }
    match file_stem {
        Some(f) => f,
        None => "Untitled".to_owned(),
    }
}

/// The whole-book search count: `<n> found`, or `<limit>+ found` once the search stopped
/// at its limit.
pub fn whole_book_count_text(n: usize) -> (s: String)
    ensures
        s@ == if n >= crate::book_search::EPUB_WHOLE_BOOK_MATCH_LIMIT {
            decimal(crate::book_search::EPUB_WHOLE_BOOK_MATCH_LIMIT as nat) + "+ found"@
        } else {
            decimal(n as nat) + " found"@
        },
{
    if n >= crate::book_search::EPUB_WHOLE_BOOK_MATCH_LIMIT {
        let l = decimal_string(crate::book_search::EPUB_WHOLE_BOOK_MATCH_LIMIT as u64);
        concat_str(l.as_str(), "+ found")
    } else {
        let c = decimal_string(n as u64);
        concat_str(c.as_str(), " found")
    }
}

} // verus!
