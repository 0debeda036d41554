//! Packing of the ELF records into bytes.
//!
//! The byte layout of the records is the work of `goblin` and `scroll`. The
//! functions here hand a record over and take the bytes back; what they state
//! about those bytes is believed, not proved.

use crate::elf::{Container, Ctx, Endian, Header, ProgramHeader, SectionHeader, Sym};
use goblin::container;
use scroll::ctx::{SizeWith, TryIntoCtx};
use scroll::IOwrite;
use vstd::prelude::*;

verus! {

/// Size in bytes of a packed file header.
pub open spec fn header_size_of(ctx: Ctx) -> usize {
    match ctx.container {
        Container::Little => 52,
        Container::Big => 64,
    }
}

/// Size in bytes of a packed program header.
pub open spec fn program_header_size_of(ctx: Ctx) -> usize {
    match ctx.container {
        Container::Little => 32,
        Container::Big => 56,
    }
}

/// Size in bytes of a packed section header.
pub open spec fn section_header_size_of(ctx: Ctx) -> usize {
    match ctx.container {
        Container::Little => 40,
        Container::Big => 64,
    }
}

/// Size in bytes of a packed symbol.
pub open spec fn sym_size_of(ctx: Ctx) -> usize {
    match ctx.container {
        Container::Little => 16,
        Container::Big => 24,
    }
}

/// The bytes that `scroll::IOwrite::iowrite_with` writes for a file header.
pub uninterp spec fn header_bytes(header: Header, ctx: Ctx) -> Seq<u8>;

/// The bytes that `scroll::IOwrite::iowrite_with` writes for a symbol.
pub uninterp spec fn sym_bytes(sym: Sym, ctx: Ctx) -> Seq<u8>;

/// What `try_into_ctx` leaves in a zeroed buffer of the size of a program
/// header, or `None` where it fails.
pub uninterp spec fn program_header_bytes(header: ProgramHeader, ctx: Ctx) -> Option<Seq<u8>>;

/// What `try_into_ctx` leaves in a zeroed buffer of the size of a section
/// header, or `None` where it fails.
pub uninterp spec fn section_header_bytes(header: SectionHeader, ctx: Ctx) -> Option<Seq<u8>>;

/// Calls `SizeWith::size_with` of `goblin::elf::Header`, which returns the
/// constant 52 for a 32-bit container and 64 for a 64-bit one.
#[verifier::external_body]
pub(crate) fn header_size(ctx: Ctx) -> (size: usize)
    ensures
        size == header_size_of(ctx),
{
    let width = match ctx.container {
        Container::Little => container::Container::Little,
        Container::Big => container::Container::Big,
    };
    let order = match ctx.le {
        Endian::Little => scroll::Endian::Little,
        Endian::Big => scroll::Endian::Big,
    };
    goblin::elf::Header::size_with(&container::Ctx::new(width, order))
}

/// Calls `SizeWith::size_with` of `goblin::elf::ProgramHeader`, which returns
/// the constant 32 for a 32-bit container and 56 for a 64-bit one.
#[verifier::external_body]
pub(crate) fn program_header_size(ctx: Ctx) -> (size: usize)
    ensures
        size == program_header_size_of(ctx),
{
    let width = match ctx.container {
        Container::Little => container::Container::Little,
        Container::Big => container::Container::Big,
    };
    let order = match ctx.le {
        Endian::Little => scroll::Endian::Little,
        Endian::Big => scroll::Endian::Big,
    };
    goblin::elf::ProgramHeader::size_with(&container::Ctx::new(width, order))
}

/// Calls `SizeWith::size_with` of `goblin::elf::SectionHeader`, which returns
/// the constant 40 for a 32-bit container and 64 for a 64-bit one.
#[verifier::external_body]
pub(crate) fn section_header_size(ctx: Ctx) -> (size: usize)
    ensures
        size == section_header_size_of(ctx),
{
    let width = match ctx.container {
        Container::Little => container::Container::Little,
        Container::Big => container::Container::Big,
    };
    let order = match ctx.le {
        Endian::Little => scroll::Endian::Little,
        Endian::Big => scroll::Endian::Big,
    };
    goblin::elf::SectionHeader::size_with(&container::Ctx::new(width, order))
}

/// Calls `SizeWith::size_with` of `goblin::elf::Sym`, which returns the
/// constant 16 for a 32-bit container and 24 for a 64-bit one.
#[verifier::external_body]
pub(crate) fn sym_size(ctx: Ctx) -> (size: usize)
    ensures
        size == sym_size_of(ctx),
{
    let width = match ctx.container {
        Container::Little => container::Container::Little,
        Container::Big => container::Container::Big,
    };
    let order = match ctx.le {
        Endian::Little => scroll::Endian::Little,
        Endian::Big => scroll::Endian::Big,
    };
    goblin::elf::Sym::size_with(&container::Ctx::new(width, order))
}

/// Calls `scroll::IOwrite::iowrite_with` on the vector with the header as a
/// `goblin::elf::Header`. That call packs the value into `size_with` bytes and
/// appends them; the bytes depend on the header and the context alone. It
/// panics where the header names no byte order, which `requires` leaves out.
/// Writing to a vector does not fail.
#[verifier::external_body]
pub(crate) fn iowrite_header(output: &mut Vec<u8>, header: &Header, ctx: Ctx)
    requires
        header.names_byte_order(),
    ensures
        final(output)@ == old(output)@ + header_bytes(*header, ctx),
        final(output)@.len() == old(output)@.len() + header_size_of(ctx),
{
    let width = match ctx.container {
        Container::Little => container::Container::Little,
        Container::Big => container::Container::Big,
    };
    let order = match ctx.le {
        Endian::Little => scroll::Endian::Little,
        Endian::Big => scroll::Endian::Big,
    };
    let Header { e_ident, e_type, e_machine, e_version, e_entry, e_phoff, e_shoff, e_flags,
        e_ehsize, e_phentsize, e_phnum, e_shentsize, e_shnum, e_shstrndx } = *header;
    let value = goblin::elf::Header { e_ident, e_type, e_machine, e_version, e_entry, e_phoff,
        e_shoff, e_flags, e_ehsize, e_phentsize, e_phnum, e_shentsize, e_shnum, e_shstrndx };
    let _ = output.iowrite_with(value, container::Ctx::new(width, order));
}

/// Calls `scroll::IOwrite::iowrite_with` on the vector with the symbol as a
/// `goblin::elf::Sym`. That call packs the value into `size_with` bytes and
/// appends them; the bytes depend on the symbol and the context alone.
/// Writing to a vector does not fail.
#[verifier::external_body]
pub(crate) fn iowrite_sym(output: &mut Vec<u8>, sym: &Sym, ctx: Ctx)
    ensures
        final(output)@ == old(output)@ + sym_bytes(*sym, ctx),
        final(output)@.len() == old(output)@.len() + sym_size_of(ctx),
{
    let width = match ctx.container {
        Container::Little => container::Container::Little,
        Container::Big => container::Container::Big,
    };
    let order = match ctx.le {
        Endian::Little => scroll::Endian::Little,
        Endian::Big => scroll::Endian::Big,
    };
    let Sym { st_name, st_info, st_other, st_shndx, st_value, st_size } = *sym;
    let value = goblin::elf::Sym { st_name, st_info, st_other, st_shndx, st_value, st_size };
    let _ = output.iowrite_with(value, container::Ctx::new(width, order));
}

/// Calls `TryIntoCtx::try_into_ctx` of `goblin::elf::ProgramHeader` on a zeroed
/// buffer of `size` bytes and returns the buffer, or `None` where the call
/// fails. The outcome depends on the header and the context alone.
#[verifier::external_body]
pub(crate) fn program_header_try_into_ctx(header: &ProgramHeader, ctx: Ctx, size: usize) -> (res:
    Option<Vec<u8>>)
    requires
        size == program_header_size_of(ctx),
    ensures
        res is Some <==> program_header_bytes(*header, ctx) is Some,
        res matches Some(bytes) ==> program_header_bytes(*header, ctx) == Some(bytes@)
            && bytes@.len() == size,
{
    let width = match ctx.container {
        Container::Little => container::Container::Little,
        Container::Big => container::Container::Big,
    };
    let order = match ctx.le {
        Endian::Little => scroll::Endian::Little,
        Endian::Big => scroll::Endian::Big,
    };
    let ProgramHeader { p_type, p_flags, p_offset, p_vaddr, p_paddr, p_filesz, p_memsz, p_align } =
        *header;
    let value = goblin::elf::ProgramHeader { p_type, p_flags, p_offset, p_vaddr, p_paddr,
        p_filesz, p_memsz, p_align };
    let mut buf = vec![0u8; size];
    value.try_into_ctx(&mut buf[..], container::Ctx::new(width, order)).ok().and(Some(buf))
}

/// Calls `TryIntoCtx::try_into_ctx` of `goblin::elf::SectionHeader` on a zeroed
/// buffer of `size` bytes and returns the buffer, or `None` where the call
/// fails. The outcome depends on the header and the context alone.
#[verifier::external_body]
pub(crate) fn section_header_try_into_ctx(header: &SectionHeader, ctx: Ctx, size: usize) -> (res:
    Option<Vec<u8>>)
    requires
        size == section_header_size_of(ctx),
    ensures
        res is Some <==> section_header_bytes(*header, ctx) is Some,
        res matches Some(bytes) ==> section_header_bytes(*header, ctx) == Some(bytes@)
            && bytes@.len() == size,
{
    let width = match ctx.container {
        Container::Little => container::Container::Little,
        Container::Big => container::Container::Big,
    };
    let order = match ctx.le {
        Endian::Little => scroll::Endian::Little,
        Endian::Big => scroll::Endian::Big,
    };
    let SectionHeader { sh_name, sh_type, sh_flags, sh_addr, sh_offset, sh_size, sh_link, sh_info,
        sh_addralign, sh_entsize } = *header;
    let value = goblin::elf::SectionHeader { sh_name, sh_type, sh_flags, sh_addr, sh_offset,
        sh_size, sh_link, sh_info, sh_addralign, sh_entsize };
    let mut buf = vec![0u8; size];
    value.try_into_ctx(&mut buf[..], container::Ctx::new(width, order)).ok().and(Some(buf))
}

} // verus!
