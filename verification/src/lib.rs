use vstd::prelude::*;

pub mod order;
pub mod text;
pub mod update_checker;
pub mod paths;
pub mod editor;
pub mod file_panel;

verus! {
} // verus!
