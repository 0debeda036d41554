//! What to show of the input file.

use vstd::prelude::*;

verus! {

#[derive(Clone, Copy, Debug, PartialEq, Eq, Structural)]
pub enum ShowArgs {
    /// Show the ELF header.
    Header,
    /// Overview of the file layout.
    Layout,
    /// Show the program sections.
    ProgramSections,
    /// Show the file segments.
    FileSegments,
    /// Show the .dynsym table and the .dynstr string table content.
    DynSym,
    /// Show the .shstrtab string table content.
    ShStrTab,
    /// Show the relocation information.
    Relocations,
    /// Find a dynamic symbol "entrypoint" and show info on it.
    Entrypoint,
}

} // verus!
