# pereplyot

The bookkeeping core of Pereplyot, a PDF and EPUB reader, written in Verus and verified
against its contracts.

- `src/` is the library: the command line, content hashes, the History log, the launcher's
  recent list, the Library, settings and store paths, the open-reader registry, undo/redo,
  printed page labels and page navigation, in-document and whole-book search, EPUB chapter
  navigation and resume, annotation colours, listings, locations, note edits, commits and
  deletion.
  Each public function states its result in `ensures`; the properties that span several
  calls are public proof functions named `law_*`.
- `tests/` runs the library on concrete values.
- `app/` is the GTK application around it: command-line entry, the JSON stores on disk
  and the launcher window. It has no page rendering: opening a document records it and
  shows a window with its title, where its annotations are kept and where it resumes; the
  reader views that would call the page, search, undo and annotation functions are not
  part of it.
