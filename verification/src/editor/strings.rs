//! Texts of the editor that depend on numbers.
use vstd::prelude::*;

use crate::text::{dec, push_dec, push_str, string_of};

verus! {

pub open spec fn fif_results_spec(matches: nat, files: nat) -> Seq<char> {
    dec(matches) + " matches in "@ + dec(files) + " files"@
}

/// `"{matches} matches in {files} files"`.
pub fn fif_results_label(matches: usize, files: usize) -> (res: String)
    ensures
        res@ == fif_results_spec(matches as nat, files as nat),
{
    let mut v: Vec<char> = Vec::new();
    push_dec(&mut v, matches as u64);
    push_str(&mut v, " matches in ");
    push_dec(&mut v, files as u64);
    push_str(&mut v, " files");
    assert(v@ =~= fif_results_spec(matches as nat, files as nat));
    string_of(&v)
}

} // verus!
