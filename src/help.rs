//! Entries of the key-binding help.

use vstd::prelude::*;

verus! {

/// Where a key binding applies.
#[derive(Debug, Clone, Copy, PartialEq, Eq)]
pub enum Context {
    /// In the help dialog.
    Help,
    /// Everywhere.
    Always,
    /// In the history list, not filtering.
    ClipsList,
    /// While filtering the history.
    Filtering,
    /// In the list of bookmark groups.
    BookmarkGroups,
    /// In the clips of one bookmark group.
    BookmarkClips,
}

/// A key, what it does, and where.
#[derive(Debug, Clone)]
pub struct KeyBinding {
    pub key: String,
    pub description: String,
    pub context: Context,
}

impl KeyBinding {
    pub fn new(key: &str, description: &str, context: Context) -> (r: KeyBinding)
        ensures
            r.key@ == key@,
            r.description@ == description@,
            r.context == context,
    {
        KeyBinding { key: String::from_str(key), description: String::from_str(description), context }
    }
}

} // verus!
