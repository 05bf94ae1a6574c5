//! Pereplyot's document-reader core: the bookkeeping behind opening, remembering and
//! annotating PDF and EPUB documents, independent of any GUI toolkit.

pub mod annotations;
pub mod book_search;
pub mod cli;
pub mod color;
pub mod config;
pub mod epub;
pub mod hash;
pub mod history;
pub mod host;
pub mod keyed;
pub mod launcher;
pub mod library;
pub mod ordering;
pub mod pages;
pub mod path;
pub mod progress;
pub mod recents;
pub mod registry;
pub mod text;
pub mod undo;
