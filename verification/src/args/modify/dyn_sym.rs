//! Edits of the .dynsym table.

use vstd::prelude::*;

pub mod add;
pub mod remove;

verus! {

#[derive(Debug)]
pub enum DynSymArgs {
    /// Add an entry to the .dynsym table.
    Add(add::AddArgs),
    /// Remove an entry from the .dynsym table.
    Remove(remove::RemoveArgs),
}

} // verus!
