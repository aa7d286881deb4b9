//! State engine of a clipboard-history utility: a bounded, deduplicated,
//! most-recently-used history store, bookmark groups, filtered addressing,
//! and an authenticated-encryption envelope for persisted payloads.

pub mod bookmarks;
pub mod codec;
pub mod config;
pub mod entry;
pub mod help;
pub mod history;
pub mod persist;
pub mod hotkey;
pub mod selection;
pub mod text;
pub mod theme;
