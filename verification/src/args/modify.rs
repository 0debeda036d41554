//! How to modify the input file.

use std::path::PathBuf;
use vstd::prelude::*;

pub mod dyn_sym;

verus! {

#[derive(Debug)]
pub struct ModifyArgs {
    /// Output ELF file to generate.
    pub output: PathBuf,
    pub command: ModifyCommand,
}

#[derive(Debug)]
pub enum ModifyCommand {
    /// Modify the .dynsym section, holding the loader dynamic symbols.
    DynSym(dyn_sym::DynSymArgs),
}

} // verus!
