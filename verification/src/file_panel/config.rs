//! Persisting the expanded paths of the file tree as plain strings.
use vstd::prelude::*;

use crate::paths::{clone_strings, views_of_strings};

verus! {

/// Paths as strings (the library holds paths as UTF-8 strings already).
pub fn paths_to_strings(paths: &[String]) -> (res: Vec<String>)
    ensures
        views_of_strings(res@) == views_of_strings(paths@),
{
    clone_strings(paths)
}

/// Strings back to paths.
pub fn strings_to_paths(s: &[String]) -> (res: Vec<String>)
    ensures
        views_of_strings(res@) == views_of_strings(s@),
{
    clone_strings(s)
}

} // verus!
