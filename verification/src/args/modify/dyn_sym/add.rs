//! The symbol to add.

use vstd::prelude::*;

verus! {

#[derive(Debug)]
pub struct AddArgs {
    /// Name of the symbol being added.
    pub name: String,
    /// `st_info` field.
    pub info: u8,
    /// `st_other` field.
    pub other: u8,
    /// `st_shndx` field.
    pub shndx: usize,
    /// Offset of the symbol in the file.
    pub value: u64,
    /// Size of the symbol.
    pub size: u64,
}

} // verus!
