//! The edits that the relayout is used for.

use crate::args::modify::ModifyCommand;
use crate::elf::{Ctx, Header, ProgramHeader, SectionHeader};
use crate::modify::dyn_sym::AddError;
use goblin::strtab::Strtab;
use vstd::prelude::*;

pub mod dyn_sym;

verus! {

/// Runs the edit that `command` names on the input and appends the new image
/// to `output`.
pub fn run(
    input_bytes: &[u8],
    header: &Header,
    program_headers: &[ProgramHeader],
    section_headers: &[SectionHeader],
    shdr_strtab: &Strtab,
    dynstrtab: &Strtab,
    ctx: Ctx,
    output: &mut Vec<u8>,
    command: ModifyCommand,
) -> (res: Result<(), AddError>)
    requires
        command->DynSym_0 is Add,
    ensures
        old(output)@.is_prefix_of(final(output)@),
        match dyn_sym::with_symbol(
            input_bytes@,
            *header,
            program_headers@,
            section_headers@,
            shdr_strtab,
            dynstrtab,
            ctx,
            command->DynSym_0->Add_0,
        ) {
            Ok(image) => res is Ok && final(output)@ == old(output)@ + image,
            Err(e) => res == Err::<(), AddError>(e),
        },
{
    match command {
        ModifyCommand::DynSym(args) => dyn_sym::run(
            input_bytes,
            header,
            program_headers,
            section_headers,
            shdr_strtab,
            dynstrtab,
            ctx,
            output,
            args,
        ),
    }
}

/// The transformation that changes nothing: it declines every section.
pub fn keep_all_sections_as_is() -> (transformer: impl Fn(
    &[u8],
    &SectionHeader,
    Ctx,
    &mut Vec<u8>,
) -> Option<u64>)
    ensures
        forall|input_bytes: &[u8], section_header: &SectionHeader, ctx: Ctx, output: &mut Vec<u8>|
            call_requires(transformer, (input_bytes, section_header, ctx, output)),
        forall|
            input_bytes: &[u8],
            section_header: &SectionHeader,
            ctx: Ctx,
            output: &mut Vec<u8>,
            res: Option<u64>,
        |
            call_ensures(transformer, (input_bytes, section_header, ctx, output), res) ==> res
                is None && final(output)@ == output@,
{
    |_input_bytes: &[u8], _section_header: &SectionHeader, _ctx: Ctx, output: &mut Vec<u8>| -> (res:
        Option<u64>)
        ensures
            res is None,
            final(output)@ == old(output)@,
        { None }
}

} // verus!
