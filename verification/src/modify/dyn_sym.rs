//! Adding a symbol to the dynamic symbol table.
//!
//! The name of the symbol is appended to the `.dynstr` section and the symbol
//! itself to the `.dynsym` section. Every other section keeps its bytes.

use crate::args::modify::dyn_sym::add::AddArgs;
use crate::args::modify::dyn_sym::DynSymArgs;
use crate::codec::{iowrite_sym, sym_bytes, sym_size, sym_size_of};
use crate::elf::{Ctx, Header, ProgramHeader, SectionHeader, Sym};
use crate::inspect::{find_in_strtab, first_in_strtab, strtab_len, strtab_size};
use crate::transformer::{
    content_sections, edit_sections, edits_of, takes_sections, transformed, write_transformed,
    Edit, TransformError,
};
use goblin::strtab::Strtab;
use vstd::prelude::*;
use vstd::slice::slice_subrange;
use vstd::utf8::encode_utf8;

verus! {

/// Why no symbol can be added.
#[derive(Clone, Copy, Debug, PartialEq, Eq, Structural)]
pub enum AddError {
    /// No section is named `.dynstr`.
    MissingDynStr,
    /// No section is named `.dynsym`.
    MissingDynSym,
    /// The section is one of the two that grow, and it does not lie within the
    /// input, or its new size does not fit in 64 bits. Sections are counted
    /// from 0 behind the first section header, the empty one.
    SectionOutOfInput { section: usize },
    /// The new image cannot be written.
    Transform(TransformError),
}

/// The new bytes of a section, where it is one of the two that grow: the
/// section with the name at `dynstr_sh_name` gets the name of the symbol and a
/// zero byte appended, the one with the name at `dynsym_sh_name` the packed
/// symbol.
pub open spec fn appended(
    input: Seq<u8>,
    header: SectionHeader,
    ctx: Ctx,
    dynstr_sh_name: usize,
    dynsym_sh_name: usize,
    symbol_name: Seq<char>,
    symbol: Sym,
) -> Option<Seq<u8>> {
    let existing = input.subrange(header.sh_offset as int, header.end());
    if header.sh_name == dynstr_sh_name {
        Some(existing + encode_utf8(symbol_name) + seq![0u8])
    } else if header.sh_name == dynsym_sh_name {
        Some(existing + sym_bytes(symbol, ctx))
    } else {
        None
    }
}

/// The section can grow, where it is one of the two that do: it lies within
/// the input, and its new size fits in 64 bits.
pub open spec fn can_append(
    input: Seq<u8>,
    header: SectionHeader,
    ctx: Ctx,
    dynstr_sh_name: usize,
    dynsym_sh_name: usize,
    symbol_name: Seq<char>,
) -> bool {
    if header.sh_name == dynstr_sh_name {
        header.end() <= input.len() && header.sh_size + encode_utf8(symbol_name).len() + 1
            <= u64::MAX
    } else if header.sh_name == dynsym_sh_name {
        header.end() <= input.len() && header.sh_size + sym_size_of(ctx) <= u64::MAX
    } else {
        true
    }
}

/// What the transformation makes of a section: the new bytes and their number
/// where the section grows, nothing where it keeps its bytes.
pub open spec fn edit_of(
    input: Seq<u8>,
    header: SectionHeader,
    ctx: Ctx,
    dynstr_sh_name: usize,
    dynsym_sh_name: usize,
    symbol_name: Seq<char>,
    symbol: Sym,
) -> Edit {
    match appended(input, header, ctx, dynstr_sh_name, dynsym_sh_name, symbol_name, symbol) {
        Some(content) => Edit { new_size: Some(content.len() as u64), content },
        None => Edit { new_size: None, content: Seq::empty() },
    }
}

/// Appends the bytes of a section of the input to `output`.
fn copy_existing_section_bytes(
    output: &mut Vec<u8>,
    input_bytes: &[u8],
    sh_offset: u64,
    sh_size: u64,
)
    requires
        sh_offset + sh_size <= input_bytes@.len(),
    ensures
        final(output)@ == old(output)@ + input_bytes@.subrange(
            sh_offset as int,
            sh_offset + sh_size,
        ),
{
    let input_len = input_bytes.len();
    assert(sh_offset + sh_size <= input_len);
    let input_start = sh_offset as usize;
    let input_end = (sh_offset + sh_size) as usize;
    output.extend_from_slice(slice_subrange(input_bytes, input_start, input_end));
}

/// The transformation that adds `symbol` under the name `symbol_name`.
///
/// `symbol.st_name` is the offset that the name gets in `.dynstr`: the length
/// of that table before the edit. `dynstr_sh_name` and `dynsym_sh_name` are the
/// offsets of the names `.dynstr` and `.dynsym` in the section name table; by
/// them the two sections are known.
pub fn append_to_dynsyms<'symbol_name>(
    dynstr_sh_name: usize,
    dynsym_sh_name: usize,
    symbol_name: &'symbol_name str,
    symbol: Sym,
) -> (transformer: impl Fn(&[u8], &SectionHeader, Ctx, &mut Vec<u8>) -> Option<u64>
    + 'symbol_name)
    ensures
        forall|input_bytes: &[u8], section_header: &SectionHeader, ctx: Ctx, output: &mut Vec<u8>|
            can_append(
                input_bytes@,
                *section_header,
                ctx,
                dynstr_sh_name,
                dynsym_sh_name,
                symbol_name@,
            ) ==> #[trigger] call_requires(
                transformer,
                (input_bytes, section_header, ctx, output),
            ),
        forall|
            input_bytes: &[u8],
            section_header: &SectionHeader,
            ctx: Ctx,
            output: &mut Vec<u8>,
            res: Option<u64>,
        |
            #[trigger] call_ensures(transformer, (input_bytes, section_header, ctx, output), res)
                ==> match appended(
                input_bytes@,
                *section_header,
                ctx,
                dynstr_sh_name,
                dynsym_sh_name,
                symbol_name@,
                symbol,
            ) {
                Some(content) => res == Some(content.len() as u64) && final(output)@ == output@
                    + content,
                None => res is None && final(output)@ == output@,
            },
{
    move |input_bytes: &[u8], section_header: &SectionHeader, ctx: Ctx, output: &mut Vec<u8>| -> (res:
        Option<u64>)
        requires
            can_append(
                input_bytes@,
                *section_header,
                ctx,
                dynstr_sh_name,
                dynsym_sh_name,
                symbol_name@,
            ),
        ensures
            match appended(
                input_bytes@,
                *section_header,
                ctx,
                dynstr_sh_name,
                dynsym_sh_name,
                symbol_name@,
                symbol,
            ) {
                Some(content) => res == Some(content.len() as u64) && final(output)@ == old(
                    output,
                )@ + content,
                None => res is None && final(output)@ == old(output)@,
            },
        {
            let sh_offset = section_header.sh_offset;
            let sh_size = section_header.sh_size;
            let ghost existing = input_bytes@.subrange(
                sh_offset as int,
                section_header.end(),
            );
            if section_header.sh_name == dynstr_sh_name {
                copy_existing_section_bytes(output, input_bytes, sh_offset, sh_size);
                let name_bytes = symbol_name.as_bytes();
                output.extend_from_slice(name_bytes);
                output.push(0);
                assert(output@ =~= old(output)@ + (existing + encode_utf8(symbol_name@)
                    + seq![0u8]));
                Some(sh_size + name_bytes.len() as u64 + 1)
            } else if section_header.sh_name == dynsym_sh_name {
                copy_existing_section_bytes(output, input_bytes, sh_offset, sh_size);
                iowrite_sym(output, &symbol, ctx);
                assert(output@ =~= old(output)@ + (existing + sym_bytes(symbol, ctx)));
                Some(sh_size + sym_size(ctx) as u64)
            } else {
                None
            }
        }
}

/// The symbol that `args` describes, with its name at `st_name`.
pub open spec fn symbol_of(args: AddArgs, st_name: usize) -> Sym {
    Sym {
        st_name,
        st_info: args.info,
        st_other: args.other,
        st_shndx: args.shndx,
        st_value: args.value,
        st_size: args.size,
    }
}

/// `k` is the first section that would have to grow and cannot.
pub open spec fn is_first_blocked(
    input: Seq<u8>,
    sections: Seq<SectionHeader>,
    ctx: Ctx,
    dynstr_sh_name: usize,
    dynsym_sh_name: usize,
    symbol_name: Seq<char>,
    k: int,
) -> bool {
    &&& 0 <= k < sections.len()
    &&& !can_append(input, sections[k], ctx, dynstr_sh_name, dynsym_sh_name, symbol_name)
    &&& forall|i: int|
        0 <= i < k ==> can_append(
            input,
            #[trigger] sections[i],
            ctx,
            dynstr_sh_name,
            dynsym_sh_name,
            symbol_name,
        )
}

/// The first section that would have to grow and cannot.
pub open spec fn first_blocked(
    input: Seq<u8>,
    sections: Seq<SectionHeader>,
    ctx: Ctx,
    dynstr_sh_name: usize,
    dynsym_sh_name: usize,
    symbol_name: Seq<char>,
) -> Option<int> {
    if exists|k: int|
        is_first_blocked(input, sections, ctx, dynstr_sh_name, dynsym_sh_name, symbol_name, k) {
        Some(
            choose|k: int|
                is_first_blocked(
                    input,
                    sections,
                    ctx,
                    dynstr_sh_name,
                    dynsym_sh_name,
                    symbol_name,
                    k,
                ),
        )
    } else {
        None
    }
}

/// What the transformation makes of each section.
pub open spec fn edits_for(
    input: Seq<u8>,
    sections: Seq<SectionHeader>,
    ctx: Ctx,
    dynstr_sh_name: usize,
    dynsym_sh_name: usize,
    symbol_name: Seq<char>,
    symbol: Sym,
) -> Seq<Edit> {
    Seq::new(
        sections.len(),
        |i: int|
            edit_of(input, sections[i], ctx, dynstr_sh_name, dynsym_sh_name, symbol_name, symbol),
    )
}

/// The new image of the input with the symbol of `args` added: the name is
/// appended to the section named `.dynstr`, the symbol to the one named
/// `.dynsym`, and everything is laid out anew. The name of the symbol gets
/// the offset at which `.dynstr` ended.
pub open spec fn with_symbol(
    input: Seq<u8>,
    header: Header,
    program_headers: Seq<ProgramHeader>,
    section_headers: Seq<SectionHeader>,
    shdr_strtab: &Strtab,
    dynstrtab: &Strtab,
    ctx: Ctx,
    args: AddArgs,
) -> Result<Seq<u8>, AddError> {
    match first_in_strtab(shdr_strtab, ".dynstr"@) {
        None => Err(AddError::MissingDynStr),
        Some(dynstr) => match first_in_strtab(shdr_strtab, ".dynsym"@) {
            None => Err(AddError::MissingDynSym),
            Some(dynsym) => {
                let sections = content_sections(section_headers);
                let symbol = symbol_of(args, strtab_size(dynstrtab) as usize);
                match first_blocked(
                    input,
                    sections,
                    ctx,
                    dynstr as usize,
                    dynsym as usize,
                    args.name@,
                ) {
                    Some(k) => Err(AddError::SectionOutOfInput { section: k as usize }),
                    None => match transformed(
                        input,
                        header,
                        program_headers,
                        section_headers,
                        ctx,
                        edits_for(
                            input,
                            sections,
                            ctx,
                            dynstr as usize,
                            dynsym as usize,
                            args.name@,
                            symbol,
                        ),
                    ) {
                        Ok(image) => Ok(image),
                        Err(e) => Err(AddError::Transform(e)),
                    },
                }
            },
        },
    }
}

/// Whether every section that has to grow can do so; else the first that
/// cannot.
fn find_blocked(
    input_bytes: &[u8],
    sections: &[SectionHeader],
    ctx: Ctx,
    dynstr_sh_name: usize,
    dynsym_sh_name: usize,
    symbol_name: &str,
) -> (res: Option<usize>)
    ensures
        match first_blocked(
            input_bytes@,
            sections@,
            ctx,
            dynstr_sh_name,
            dynsym_sh_name,
            symbol_name@,
        ) {
            Some(k) => res == Some(k as usize),
            None => res is None && forall|i: int|
                0 <= i < sections@.len() ==> can_append(
                    input_bytes@,
                    #[trigger] sections@[i],
                    ctx,
                    dynstr_sh_name,
                    dynsym_sh_name,
                    symbol_name@,
                ),
        },
{
    let name_size = symbol_name.as_bytes().len();
    let symbol_size = sym_size(ctx);
    let mut k: usize = 0;
    while k < sections.len()
        invariant
            k <= sections@.len(),
            name_size == encode_utf8(symbol_name@).len(),
            symbol_size == sym_size_of(ctx),
            forall|i: int|
                0 <= i < k ==> can_append(
                    input_bytes@,
                    #[trigger] sections@[i],
                    ctx,
                    dynstr_sh_name,
                    dynsym_sh_name,
                    symbol_name@,
                ),
        decreases sections@.len() - k,
    {
        let section = &sections[k];
        let grows_by: Option<usize> = if section.sh_name == dynstr_sh_name {
            Some(name_size)
        } else if section.sh_name == dynsym_sh_name {
            Some(symbol_size)
        } else {
            None
        };
        if let Some(more) = grows_by {
            let end = section.sh_offset as u128 + section.sh_size as u128;
            let extra: u128 = if section.sh_name == dynstr_sh_name {
                1
            } else {
                0
            };
            let new_size = section.sh_size as u128 + more as u128 + extra;
            if end > input_bytes.len() as u128 || new_size > u64::MAX as u128 {
                assert(is_first_blocked(
                    input_bytes@,
                    sections@,
                    ctx,
                    dynstr_sh_name,
                    dynsym_sh_name,
                    symbol_name@,
                    k as int,
                ));
                return Some(k);
            }
        }
        k += 1;
    }
    None
}

/// Adds the symbol that `args` describes to the dynamic symbols of the input
/// and appends the new image to `output`.
pub fn add(
    input_bytes: &[u8],
    header: &Header,
    program_headers: &[ProgramHeader],
    section_headers: &[SectionHeader],
    shdr_strtab: &Strtab,
    dynstrtab: &Strtab,
    ctx: Ctx,
    output: &mut Vec<u8>,
    args: AddArgs,
) -> (res: Result<(), AddError>)
    ensures
        old(output)@.is_prefix_of(final(output)@),
        match with_symbol(
            input_bytes@,
            *header,
            program_headers@,
            section_headers@,
            shdr_strtab,
            dynstrtab,
            ctx,
            args,
        ) {
            Ok(image) => res is Ok && final(output)@ == old(output)@ + image,
            Err(e) => res == Err::<(), AddError>(e),
        },
{
    assert(old(output)@.is_prefix_of(output@));
    // The name is appended to `.dynstr`, so it starts where the table ends now.
    let symbol = Sym {
        st_name: strtab_len(dynstrtab),
        st_info: args.info,
        st_other: args.other,
        st_shndx: args.shndx,
        st_value: args.value,
        st_size: args.size,
    };
    let dynstr_sh_name = match find_in_strtab(shdr_strtab, ".dynstr") {
        Some(offset) => offset,
        None => { return Err(AddError::MissingDynStr); },
    };
    let dynsym_sh_name = match find_in_strtab(shdr_strtab, ".dynsym") {
        Some(offset) => offset,
        None => { return Err(AddError::MissingDynSym); },
    };
    let sections = if section_headers.len() == 0 {
        section_headers
    } else {
        slice_subrange(section_headers, 1, section_headers.len())
    };
    assert(sections@ =~= content_sections(section_headers@));
    let symbol_name = args.name.as_str();
    if let Some(section) = find_blocked(
        input_bytes,
        sections,
        ctx,
        dynstr_sh_name,
        dynsym_sh_name,
        symbol_name,
    ) {
        return Err(AddError::SectionOutOfInput { section });
    }
    let transformer = append_to_dynsyms(dynstr_sh_name, dynsym_sh_name, symbol_name, symbol);
    assert(takes_sections(transformer, input_bytes, sections@, ctx));
    let edits = edit_sections(input_bytes, sections, ctx, &transformer);
    proof {
        let expected = edits_for(
            input_bytes@,
            sections@,
            ctx,
            dynstr_sh_name,
            dynsym_sh_name,
            symbol_name@,
            symbol,
        );
        assert forall|i: int| 0 <= i < edits@.len() implies edits_of(edits@)[i] == expected[i] by {
            let sink = choose|sink: &mut Vec<u8>|
                sink@.len() == 0 && #[trigger] call_ensures(
                    transformer,
                    (input_bytes, &sections@[i], ctx, sink),
                    edits@[i].new_size,
                ) && edits@[i].content@ == final(sink)@;
            match appended(
                input_bytes@,
                sections@[i],
                ctx,
                dynstr_sh_name,
                dynsym_sh_name,
                symbol_name@,
                symbol,
            ) {
                Some(content) => {
                    assert(final(sink)@ =~= content);
                },
                None => {
                    assert(final(sink)@ =~= Seq::<u8>::empty());
                },
            }
        }
        assert(edits_of(edits@) =~= expected);
    }
    match write_transformed(
        input_bytes,
        header,
        program_headers,
        section_headers,
        ctx,
        edits.as_slice(),
        output,
    ) {
        Ok(()) => Ok(()),
        Err(e) => Err(AddError::Transform(e)),
    }
}

/// Runs the edit of the dynamic symbols that `args` names. Removing a symbol
/// is not supported.
pub fn run(
    input_bytes: &[u8],
    header: &Header,
    program_headers: &[ProgramHeader],
    section_headers: &[SectionHeader],
    shdr_strtab: &Strtab,
    dynstrtab: &Strtab,
    ctx: Ctx,
    output: &mut Vec<u8>,
    args: DynSymArgs,
) -> (res: Result<(), AddError>)
    requires
        args is Add,
    ensures
        old(output)@.is_prefix_of(final(output)@),
        match with_symbol(
            input_bytes@,
            *header,
            program_headers@,
            section_headers@,
            shdr_strtab,
            dynstrtab,
            ctx,
            args->Add_0,
        ) {
            Ok(image) => res is Ok && final(output)@ == old(output)@ + image,
            Err(e) => res == Err::<(), AddError>(e),
        },
{
    match args {
        DynSymArgs::Add(args) => self::add(
            input_bytes,
            header,
            program_headers,
            section_headers,
            shdr_strtab,
            dynstrtab,
            ctx,
            output,
            args,
        ),
        DynSymArgs::Remove(_) => vstd::pervasive::unreached(),
    }
}

} // verus!
