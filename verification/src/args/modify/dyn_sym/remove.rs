//! The symbol to remove.

use vstd::prelude::*;

verus! {

#[derive(Debug)]
pub struct RemoveArgs {
    /// Name of the symbol to remove.
    pub name: String,
}

} // verus!
