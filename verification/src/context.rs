//! Branch-context decisions: whether the repository is currently on its
//! default branch. On plain repositories that is a branch named `main` or
//! `master`; on repositories whose heads are bookmarks, any bookmark listing
//! that names `main` counts as the default.

use vstd::prelude::*;

use crate::text::seq_contains;
use crate::text::str_contains;
use crate::text::str_eq;

verus! {

/// True when `name` is a default branch name.
pub fn is_default_branch(name: &str) -> (r: bool)
    ensures
        r <==> (name@ == "main"@ || name@ == "master"@),
{
    str_eq(name, "main") || str_eq(name, "master")
}

/// True when the bookmark listing mentions the default bookmark.
pub fn bookmarks_include_default(bookmarks: &str) -> (r: bool)
    ensures
        r <==> seq_contains(bookmarks@, "main"@),
{
    str_contains(bookmarks, "main")
}

} // verus!
