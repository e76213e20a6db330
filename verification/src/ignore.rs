//! The fixed directory-ignore policy.
//!
//! Certain well-known noise directories (version control, build output,
//! dependency caches) are omitted from the tree entirely. The comparison is
//! an exact, case-sensitive match of the directory's base name.

use vstd::prelude::*;
use crate::text::str_eq;

verus! {

/// A directory base name is ignored exactly when it is one of the six
/// well-known noise names.
pub open spec fn is_ignored_name(name: Seq<char>) -> bool {
    ||| name == "node_modules"@
    ||| name == "target"@
    ||| name == ".next"@
    ||| name == ".ssh"@
    ||| name == "coverage"@
    ||| name == ".git"@
}

/// Checks if a folder should be ignored based on its name.
pub fn should_ignore(folder_name: &str) -> (r: bool)
    ensures
        r == is_ignored_name(folder_name@),
{
    str_eq(folder_name, "node_modules") || str_eq(folder_name, "target") || str_eq(
        folder_name,
        ".next",
    ) || str_eq(folder_name, ".ssh") || str_eq(folder_name, "coverage") || str_eq(
        folder_name,
        ".git",
    )
}

} // verus!
