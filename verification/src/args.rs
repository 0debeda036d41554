//! The command line, as plain values.

use std::path::PathBuf;
use vstd::prelude::*;

pub mod modify;
pub mod show;

verus! {

/// `std::path::PathBuf`, which is only carried through.
#[verifier::external_type_specification]
#[verifier::external_body]
pub struct ExPathBuf(PathBuf);

/// Editor for ELF files.
#[derive(Debug)]
pub struct Args {
    /// Input ELF file to process.
    pub input: PathBuf,
    pub command: Command,
}

/// A specific action to perform.
#[derive(Debug)]
pub enum Command {
    /// Show the input file.
    Show(show::ShowArgs),
    /// Modify the input file.
    Modify(modify::ModifyArgs),
}

} // verus!
