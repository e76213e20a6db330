//! Classification of a directory entry during traversal.
//!
//! For each entry the walker learns the entry's base name and whether the
//! entry is a directory or a regular file (freshly queried, following
//! symbolic links). The decision of what to do with it lives here: descend
//! into a non-ignored directory, record a regular file, and skip both
//! ignored directories and entries that are neither.

use vstd::prelude::*;
use crate::ignore::is_ignored_name;
use crate::ignore::should_ignore;

verus! {

/// What kind of filesystem object a directory entry names.
#[derive(Clone, Copy, Debug, PartialEq, Eq, Structural)]
pub enum EntryKind {
    Directory,
    File,
    Other,
}

/// What the tree builder does with a directory entry.
#[derive(Clone, Copy, Debug, PartialEq, Eq, Structural)]
pub enum EntryAction {
    Descend,
    Record,
    Skip,
}

/// The traversal policy: descend into directories unless their base name
/// is ignored, record regular files, skip everything else.
pub open spec fn action_for(kind: EntryKind, name: Seq<char>) -> EntryAction {
    match kind {
        EntryKind::Directory => if is_ignored_name(name) {
            EntryAction::Skip
        } else {
            EntryAction::Descend
        },
        EntryKind::File => EntryAction::Record,
        EntryKind::Other => EntryAction::Skip,
    }
}

/// Decides what to do with one directory entry.
pub fn classify_entry(kind: EntryKind, name: &str) -> (a: EntryAction)
    ensures
        a == action_for(kind, name@),
{
    match kind {
        EntryKind::Directory => if should_ignore(name) {
            EntryAction::Skip
        } else {
            EntryAction::Descend
        },
        EntryKind::File => EntryAction::Record,
        EntryKind::Other => EntryAction::Skip,
    }
}

} // verus!
