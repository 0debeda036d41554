//! The layout that the relayout engine supports, and the check for it.
//!
//! ELF files can be laid out in many ways. The engine handles those in which
//! the file header, the program header table, the sections and the section
//! header table follow each other in this order, with nothing between them
//! but zero bytes, and with nothing behind the section header table.

use crate::codec::{header_size, header_size_of};
use crate::elf::{Ctx, Header, SectionHeader};
use vstd::prelude::*;

verus! {

/// A part of the file that the check walks over.
#[derive(Clone, Copy, Debug, PartialEq, Eq, Structural)]
pub enum Region {
    /// The program header table.
    ProgramHeaders,
    /// The section with the number `index`, whose header holds `name` as the
    /// offset of its name.
    Section { index: usize, name: usize },
    /// The section header table.
    SectionHeaders,
}

/// Why a file does not have the supported layout.
#[derive(Clone, Copy, Debug, PartialEq, Eq, Structural)]
pub enum StructuralError {
    /// The region starts before the end of what lies before it.
    Overlap { region: Region, offset: u64, size: u64, covered_up_to: u64 },
    /// A byte other than zero lies between the region and what lies before it.
    NonZeroGap { region: Region, offset: u64, size: u64, covered_up_to: u64 },
    /// The region starts or ends behind the end of the file, or behind what 64
    /// bits can address.
    OutOfFile { region: Region, offset: u64, size: u64, file_size: usize },
    /// There are fewer than two section headers.
    TooFewSections { count: usize },
    /// The first section header is not the empty one at offset 0.
    FirstSectionNotNull { offset: u64, size: u64 },
    /// A byte other than zero lies behind the section header table.
    TrailingBytes { covered_up_to: u64, file_size: usize },
}

/// Every byte of the file from `from` up to `to` is zero.
pub open spec fn all_zero(bytes: Seq<u8>, from: int, to: int) -> bool {
    forall|i: int| from <= i < to ==> #[trigger] bytes[i] == 0
}

/// Checks that a region of `size` bytes at `offset` follows what is covered
/// up to `covered_up_to`, with nothing but zero bytes between the two, and
/// gives the offset up to which the file is covered with it.
pub open spec fn region_check(
    bytes: Seq<u8>,
    covered_up_to: u64,
    region: Region,
    offset: u64,
    size: u64,
) -> Result<u64, StructuralError> {
    if offset < covered_up_to {
        Err(StructuralError::Overlap { region, offset, size, covered_up_to })
    } else if offset > bytes.len() {
        Err(StructuralError::OutOfFile { region, offset, size, file_size: bytes.len() as usize })
    } else if !all_zero(bytes, covered_up_to as int, offset as int) {
        Err(StructuralError::NonZeroGap { region, offset, size, covered_up_to })
    } else if offset + size > u64::MAX {
        Err(StructuralError::OutOfFile { region, offset, size, file_size: bytes.len() as usize })
    } else {
        Ok((offset + size) as u64)
    }
}

/// Checks the sections 1 to `n` in this order, each against the end of the
/// one before it, and gives the offset up to which the file is covered with
/// them. `covered_up_to` is the end of what lies before section 1.
pub open spec fn sections_check(
    bytes: Seq<u8>,
    section_headers: Seq<SectionHeader>,
    covered_up_to: u64,
    n: nat,
) -> Result<u64, StructuralError>
    decreases n,
{
    if n == 0 {
        Ok(covered_up_to)
    } else {
        match sections_check(bytes, section_headers, covered_up_to, (n - 1) as nat) {
            Err(e) => Err(e),
            Ok(covered) => region_check(
                bytes,
                covered,
                Region::Section { index: n as usize, name: section_headers[n as int].sh_name },
                section_headers[n as int].sh_offset,
                section_headers[n as int].sh_size,
            ),
        }
    }
}

/// Checks what lies behind the section header table: nothing but zero bytes.
pub open spec fn tail_check(bytes: Seq<u8>, header: Header, covered_up_to: u64) -> Result<
    (),
    StructuralError,
> {
    if covered_up_to > bytes.len() {
        Err(
            StructuralError::OutOfFile {
                region: Region::SectionHeaders,
                offset: header.e_shoff,
                size: header.section_headers_size() as u64,
                file_size: bytes.len() as usize,
            },
        )
    } else if !all_zero(bytes, covered_up_to as int, bytes.len() as int) {
        Err(StructuralError::TrailingBytes { covered_up_to, file_size: bytes.len() as usize })
    } else {
        Ok(())
    }
}

/// The layout check: the file header, the program header table, the sections
/// from the second on in the order of their headers, and the section header
/// table follow each other, and the file ends with the section header table.
/// The first violation in this order is the one that is reported.
pub open spec fn structure(
    bytes: Seq<u8>,
    header: Header,
    section_headers: Seq<SectionHeader>,
    ctx: Ctx,
) -> Result<(), StructuralError> {
    match region_check(
        bytes,
        header_size_of(ctx) as u64,
        Region::ProgramHeaders,
        header.e_phoff,
        header.program_headers_size() as u64,
    ) {
        Err(e) => Err(e),
        Ok(after_program_headers) => if section_headers.len() < 2 {
            Err(StructuralError::TooFewSections { count: section_headers.len() as usize })
        } else if !(section_headers[0].sh_offset == 0 && section_headers[0].sh_size == 0) {
            Err(
                StructuralError::FirstSectionNotNull {
                    offset: section_headers[0].sh_offset,
                    size: section_headers[0].sh_size,
                },
            )
        } else {
            match sections_check(
                bytes,
                section_headers,
                after_program_headers,
                (section_headers.len() - 1) as nat,
            ) {
                Err(e) => Err(e),
                Ok(after_sections) => match region_check(
                    bytes,
                    after_sections,
                    Region::SectionHeaders,
                    header.e_shoff,
                    header.section_headers_size() as u64,
                ) {
                    Err(e) => Err(e),
                    Ok(after_section_headers) => tail_check(bytes, header, after_section_headers),
                },
            }
        },
    }
}

/// Once the check of the sections has failed it stays failed.
pub proof fn lemma_failure_stays(
    bytes: Seq<u8>,
    section_headers: Seq<SectionHeader>,
    covered_up_to: u64,
    n: nat,
    m: nat,
)
    requires
        n <= m,
        sections_check(bytes, section_headers, covered_up_to, n) is Err,
    ensures
        sections_check(bytes, section_headers, covered_up_to, m) == sections_check(
            bytes,
            section_headers,
            covered_up_to,
            n,
        ),
    decreases m,
{
    if n < m {
        lemma_failure_stays(bytes, section_headers, covered_up_to, n, (m - 1) as nat);
    }
}

/// Whether every byte from `from` up to `to` is zero.
fn is_all_zero(bytes: &[u8], from: usize, to: usize) -> (res: bool)
    requires
        from <= to <= bytes@.len(),
    ensures
        res == all_zero(bytes@, from as int, to as int),
{
    let mut i: usize = from;
    while i < to
        invariant
            from <= i <= to <= bytes@.len(),
            all_zero(bytes@, from as int, i as int),
        decreases to - i,
    {
        if bytes[i] != 0 {
            return false;
        }
        i += 1;
    }
    true
}

/// Checks one region against what lies before it.
fn check_region(bytes: &[u8], covered_up_to: u64, region: Region, offset: u64, size: u64) -> (res:
    Result<u64, StructuralError>)
    ensures
        res == region_check(bytes@, covered_up_to, region, offset, size),
{
    if offset < covered_up_to {
        return Err(StructuralError::Overlap { region, offset, size, covered_up_to });
    }
    if offset > bytes.len() as u64 {
        return Err(StructuralError::OutOfFile { region, offset, size, file_size: bytes.len() });
    }
    if !is_all_zero(bytes, covered_up_to as usize, offset as usize) {
        return Err(StructuralError::NonZeroGap { region, offset, size, covered_up_to });
    }
    match offset.checked_add(size) {
        Some(end) => Ok(end),
        None => Err(StructuralError::OutOfFile { region, offset, size, file_size: bytes.len() }),
    }
}

/// The size in bytes of a table of `count` entries of `entry_size` bytes.
fn table_size(entry_size: u16, count: u16) -> (size: u64)
    ensures
        size == entry_size as int * count as int,
{
    assert(entry_size as int * count as int <= 0xffff * 0xffff) by (nonlinear_arith)
        requires
            0 <= entry_size <= 0xffff,
            0 <= count <= 0xffff,
    ;
    assert(0 <= entry_size as int * count as int) by (nonlinear_arith)
        requires
            0 <= entry_size,
            0 <= count,
    ;
    entry_size as u64 * count as u64
}

/// Verifies that the layout of the file matches what the relayout expects.
/// Should be called for the input file, before anything is planned.
pub fn verify_elf_structure(
    bytes: &[u8],
    header: &Header,
    section_headers: &[SectionHeader],
    ctx: Ctx,
) -> (res: Result<(), StructuralError>)
    ensures
        res == structure(bytes@, *header, section_headers@, ctx),
{
    // All the bytes of the file are expected to be covered by known
    // structures, except that there may be gaps of zero bytes between them.
    let after_header = header_size(ctx) as u64;
    let after_program_headers = match check_region(
        bytes,
        after_header,
        Region::ProgramHeaders,
        header.e_phoff,
        table_size(header.e_phentsize, header.e_phnum),
    ) {
        Ok(covered_up_to) => covered_up_to,
        Err(e) => { return Err(e); },
    };

    if section_headers.len() < 2 {
        return Err(StructuralError::TooFewSections { count: section_headers.len() });
    }
    if !(section_headers[0].sh_offset == 0 && section_headers[0].sh_size == 0) {
        return Err(
            StructuralError::FirstSectionNotNull {
                offset: section_headers[0].sh_offset,
                size: section_headers[0].sh_size,
            },
        );
    }

    let mut covered_up_to = after_program_headers;
    let mut i: usize = 1;
    while i < section_headers.len()
        invariant
            1 <= i <= section_headers@.len(),
            section_headers@[0].sh_offset == 0 && section_headers@[0].sh_size == 0,
            region_check(
                bytes@,
                header_size_of(ctx) as u64,
                Region::ProgramHeaders,
                header.e_phoff,
                header.program_headers_size() as u64,
            ) == Ok::<u64, StructuralError>(after_program_headers),
            sections_check(bytes@, section_headers@, after_program_headers, (i - 1) as nat) == Ok::<
                u64,
                StructuralError,
            >(covered_up_to),
        decreases section_headers@.len() - i,
    {
        let section = &section_headers[i];
        proof {
            if sections_check(bytes@, section_headers@, after_program_headers, i as nat) is Err {
                lemma_failure_stays(
                    bytes@,
                    section_headers@,
                    after_program_headers,
                    i as nat,
                    (section_headers@.len() - 1) as nat,
                );
            }
        }
        covered_up_to = match check_region(
            bytes,
            covered_up_to,
            Region::Section { index: i, name: section.sh_name },
            section.sh_offset,
            section.sh_size,
        ) {
            Ok(covered_up_to) => covered_up_to,
            Err(e) => { return Err(e); },
        };
        i += 1;
    }

    let table_size = table_size(header.e_shentsize, header.e_shnum);
    let covered_up_to = match check_region(
        bytes,
        covered_up_to,
        Region::SectionHeaders,
        header.e_shoff,
        table_size,
    ) {
        Ok(covered_up_to) => covered_up_to,
        Err(e) => { return Err(e); },
    };

    if covered_up_to > bytes.len() as u64 {
        return Err(
            StructuralError::OutOfFile {
                region: Region::SectionHeaders,
                offset: header.e_shoff,
                size: table_size,
                file_size: bytes.len(),
            },
        );
    }
    if !is_all_zero(bytes, covered_up_to as usize, bytes.len()) {
        return Err(StructuralError::TrailingBytes { covered_up_to, file_size: bytes.len() });
    }
    Ok(())
}

/// Where the regions before it lie: the end of section `i - 1`, or, for the
/// first section behind the empty one, `covered_up_to`.
pub open spec fn end_before(section_headers: Seq<SectionHeader>, covered_up_to: u64, i: int) -> int {
    if i <= 1 {
        covered_up_to as int
    } else {
        section_headers[i - 1].end()
    }
}

/// What a passed check of the sections 1 to `n` says of each of them: it
/// starts at or behind the end of what lies before it, within the file, with
/// nothing but zero bytes between the two.
pub proof fn lemma_checked_sections(
    bytes: Seq<u8>,
    section_headers: Seq<SectionHeader>,
    covered_up_to: u64,
    n: nat,
)
    requires
        sections_check(bytes, section_headers, covered_up_to, n) is Ok,
    ensures
        sections_check(bytes, section_headers, covered_up_to, n)->Ok_0 == end_before(
            section_headers,
            covered_up_to,
            n as int + 1,
        ),
        forall|i: int|
            1 <= i <= n ==> {
                &&& end_before(section_headers, covered_up_to, i) <= (
                #[trigger] section_headers[i]).sh_offset <= bytes.len()
                &&& section_headers[i].end() <= u64::MAX
                &&& all_zero(
                    bytes,
                    end_before(section_headers, covered_up_to, i),
                    section_headers[i].sh_offset as int,
                )
            },
    decreases n,
{
    if n > 0 {
        lemma_checked_sections(bytes, section_headers, covered_up_to, (n - 1) as nat);
    }
}

/// A region that passes against a file passes against every file that starts
/// with it.
pub proof fn lemma_region_check_of_longer(
    bytes: Seq<u8>,
    longer: Seq<u8>,
    covered_up_to: u64,
    region: Region,
    offset: u64,
    size: u64,
)
    requires
        bytes.is_prefix_of(longer),
        region_check(bytes, covered_up_to, region, offset, size) is Ok,
    ensures
        region_check(longer, covered_up_to, region, offset, size) == region_check(
            bytes,
            covered_up_to,
            region,
            offset,
            size,
        ),
{
    assert forall|i: int| covered_up_to <= i < offset implies #[trigger] longer[i] == 0 by {
        assert(longer[i] == bytes[i]);
    }
}

/// Sections that pass against a file pass against every file that starts with
/// it.
pub proof fn lemma_sections_check_of_longer(
    bytes: Seq<u8>,
    longer: Seq<u8>,
    section_headers: Seq<SectionHeader>,
    covered_up_to: u64,
    n: nat,
)
    requires
        bytes.is_prefix_of(longer),
        sections_check(bytes, section_headers, covered_up_to, n) is Ok,
    ensures
        sections_check(longer, section_headers, covered_up_to, n) == sections_check(
            bytes,
            section_headers,
            covered_up_to,
            n,
        ),
    decreases n,
{
    if n > 0 {
        lemma_sections_check_of_longer(
            bytes,
            longer,
            section_headers,
            covered_up_to,
            (n - 1) as nat,
        );
        lemma_region_check_of_longer(
            bytes,
            longer,
            sections_check(bytes, section_headers, covered_up_to, (n - 1) as nat)->Ok_0,
            Region::Section { index: n as usize, name: section_headers[n as int].sh_name },
            section_headers[n as int].sh_offset,
            section_headers[n as int].sh_size,
        );
    }
}

} // verus!
