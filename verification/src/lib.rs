//! Backend core of a desktop file manager: directory-entry modelling and
//! listing, a persistent SQLite-backed name/path index with full-text and
//! fuzzy search, and the logic of an XDG file-chooser portal backend
//! (option decoding, picker argument construction, `file://` URI encoding).
//!
//! Filesystem and process I/O stay outside: callers read metadata, spawn
//! the picker and run the ingest thread, and hand this crate plain values.
pub mod entry;
pub mod indexer;
pub mod listing;
pub mod picker;
pub mod portal;
pub mod preview;
pub mod store;
pub mod text;
pub mod uri;
