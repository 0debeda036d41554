use elf_edit::elf::{Container, Ctx, Endian, Header, SectionHeader};
use elf_edit::structure::{verify_elf_structure, Region, StructuralError};

fn ctx() -> Ctx {
    Ctx { container: Container::Big, le: Endian::Little }
}

fn header(e_phoff: u64, e_phnum: u16, e_shoff: u64, e_shnum: u16) -> Header {
    Header {
        e_ident: [0x7f, b'E', b'L', b'F', 2, 1, 1, 0, 0, 0, 0, 0, 0, 0, 0, 0],
        e_type: 3,
        e_machine: 0xf7,
        e_version: 1,
        e_entry: 0,
        e_phoff,
        e_shoff,
        e_flags: 0,
        e_ehsize: 64,
        e_phentsize: 56,
        e_phnum,
        e_shentsize: 64,
        e_shnum,
        e_shstrndx: 0,
    }
}

fn section(sh_name: usize, sh_offset: u64, sh_size: u64) -> SectionHeader {
    SectionHeader {
        sh_name,
        sh_type: 1,
        sh_flags: 0,
        sh_addr: 0,
        sh_offset,
        sh_size,
        sh_link: 0,
        sh_info: 0,
        sh_addralign: 1,
        sh_entsize: 0,
    }
}

// A file of 400 bytes: the file header up to 64, one program header up to
// 120, a section at 120..135, one at 136..144, the three section headers at
// 160..352, and zero bytes behind them. The content is 0xff wherever a
// region lies and zero between the regions.
fn file() -> (Vec<u8>, Header, Vec<SectionHeader>) {
    let mut bytes = vec![0u8; 400];
    for byte in &mut bytes[0..135] {
        *byte = 0xff;
    }
    for byte in &mut bytes[136..144] {
        *byte = 0xff;
    }
    for byte in &mut bytes[160..352] {
        *byte = 0xff;
    }
    let sections = vec![section(0, 0, 0), section(1, 120, 15), section(7, 136, 8)];
    (bytes, header(64, 1, 160, 3), sections)
}

#[test]
fn a_file_with_zero_gaps_passes() {
    let (bytes, header, sections) = file();
    assert_eq!(verify_elf_structure(&bytes, &header, &sections, ctx()), Ok(()));
}

#[test]
fn a_file_that_ends_with_the_section_headers_passes() {
    let (mut bytes, header, sections) = file();
    bytes.truncate(352);
    assert_eq!(verify_elf_structure(&bytes, &header, &sections, ctx()), Ok(()));
}

#[test]
fn a_byte_in_the_gap_between_two_sections_names_the_section_behind_it() {
    let (mut bytes, header, sections) = file();
    bytes[135] = 1;
    assert_eq!(
        verify_elf_structure(&bytes, &header, &sections, ctx()),
        Err(StructuralError::NonZeroGap {
            region: Region::Section { index: 2, name: 7 },
            offset: 136,
            size: 8,
            covered_up_to: 135,
        })
    );
}

#[test]
fn program_headers_that_start_in_the_file_header_overlap() {
    let (bytes, _, sections) = file();
    let header = header(63, 1, 160, 3);
    assert_eq!(
        verify_elf_structure(&bytes, &header, &sections, ctx()),
        Err(StructuralError::Overlap {
            region: Region::ProgramHeaders,
            offset: 63,
            size: 56,
            covered_up_to: 64,
        })
    );
}

#[test]
fn the_file_header_of_a_32_bit_file_ends_at_52() {
    let (bytes, _, sections) = file();
    let ctx = Ctx { container: Container::Little, le: Endian::Little };
    let at_51 = header(51, 1, 160, 3);
    assert_eq!(
        verify_elf_structure(&bytes, &at_51, &sections, ctx),
        Err(StructuralError::Overlap {
            region: Region::ProgramHeaders,
            offset: 51,
            size: 56,
            covered_up_to: 52,
        })
    );
    // At 52 the table does not overlap the file header; it then runs up to
    // 108, before the first section.
    let mut bytes = bytes;
    for byte in &mut bytes[108..120] {
        *byte = 0;
    }
    let at_52 = header(52, 1, 160, 3);
    assert_eq!(verify_elf_structure(&bytes, &at_52, &sections, ctx), Ok(()));
}

#[test]
fn a_byte_between_file_header_and_program_headers_is_reported() {
    let (mut bytes, _, _) = file();
    let header = header(72, 1, 160, 3);
    let sections = vec![section(0, 0, 0), section(1, 128, 7), section(7, 136, 8)];
    assert_eq!(
        verify_elf_structure(&bytes, &header, &sections, ctx()),
        Err(StructuralError::NonZeroGap {
            region: Region::ProgramHeaders,
            offset: 72,
            size: 56,
            covered_up_to: 64,
        })
    );
    for byte in &mut bytes[64..72] {
        *byte = 0;
    }
    assert_eq!(verify_elf_structure(&bytes, &header, &sections, ctx()), Ok(()));
}

#[test]
fn fewer_than_two_sections_are_too_few() {
    let (bytes, header, _) = file();
    assert_eq!(
        verify_elf_structure(&bytes, &header, &[], ctx()),
        Err(StructuralError::TooFewSections { count: 0 })
    );
    assert_eq!(
        verify_elf_structure(&bytes, &header, &[section(0, 0, 0)], ctx()),
        Err(StructuralError::TooFewSections { count: 1 })
    );
}

#[test]
fn the_first_section_has_to_be_empty_at_offset_zero() {
    let (bytes, header, mut sections) = file();
    sections[0] = section(0, 0, 4);
    assert_eq!(
        verify_elf_structure(&bytes, &header, &sections, ctx()),
        Err(StructuralError::FirstSectionNotNull { offset: 0, size: 4 })
    );
    sections[0] = section(0, 120, 0);
    assert_eq!(
        verify_elf_structure(&bytes, &header, &sections, ctx()),
        Err(StructuralError::FirstSectionNotNull { offset: 120, size: 0 })
    );
}

#[test]
fn a_section_that_starts_in_the_program_headers_overlaps() {
    let (bytes, header, mut sections) = file();
    sections[1] = section(1, 119, 16);
    assert_eq!(
        verify_elf_structure(&bytes, &header, &sections, ctx()),
        Err(StructuralError::Overlap {
            region: Region::Section { index: 1, name: 1 },
            offset: 119,
            size: 16,
            covered_up_to: 120,
        })
    );
}

#[test]
fn a_section_that_starts_in_the_section_before_it_overlaps() {
    let (bytes, header, mut sections) = file();
    sections[2] = section(7, 134, 10);
    assert_eq!(
        verify_elf_structure(&bytes, &header, &sections, ctx()),
        Err(StructuralError::Overlap {
            region: Region::Section { index: 2, name: 7 },
            offset: 134,
            size: 10,
            covered_up_to: 135,
        })
    );
}

#[test]
fn section_headers_that_start_in_the_last_section_overlap() {
    let (bytes, _, sections) = file();
    let header = header(64, 1, 143, 3);
    assert_eq!(
        verify_elf_structure(&bytes, &header, &sections, ctx()),
        Err(StructuralError::Overlap {
            region: Region::SectionHeaders,
            offset: 143,
            size: 192,
            covered_up_to: 144,
        })
    );
}

#[test]
fn a_byte_between_the_last_section_and_the_section_headers_is_reported() {
    let (mut bytes, header, sections) = file();
    bytes[159] = 0x80;
    assert_eq!(
        verify_elf_structure(&bytes, &header, &sections, ctx()),
        Err(StructuralError::NonZeroGap {
            region: Region::SectionHeaders,
            offset: 160,
            size: 192,
            covered_up_to: 144,
        })
    );
}

#[test]
fn a_byte_behind_the_section_headers_is_reported() {
    let (mut bytes, header, sections) = file();
    bytes[399] = 1;
    assert_eq!(
        verify_elf_structure(&bytes, &header, &sections, ctx()),
        Err(StructuralError::TrailingBytes { covered_up_to: 352, file_size: 400 })
    );
}

#[test]
fn a_region_behind_the_end_of_the_file_is_reported() {
    let (bytes, header, mut sections) = file();
    sections[2] = section(7, 401, 8);
    assert_eq!(
        verify_elf_structure(&bytes, &header, &sections, ctx()),
        Err(StructuralError::OutOfFile {
            region: Region::Section { index: 2, name: 7 },
            offset: 401,
            size: 8,
            file_size: 400,
        })
    );
    sections[2] = section(7, 136, u64::MAX - 100);
    assert_eq!(
        verify_elf_structure(&bytes, &header, &sections, ctx()),
        Err(StructuralError::OutOfFile {
            region: Region::Section { index: 2, name: 7 },
            offset: 136,
            size: u64::MAX - 100,
            file_size: 400,
        })
    );
}

#[test]
fn section_headers_that_end_behind_the_file_are_reported() {
    let (mut bytes, header, sections) = file();
    bytes.truncate(351);
    assert_eq!(
        verify_elf_structure(&bytes, &header, &sections, ctx()),
        Err(StructuralError::OutOfFile {
            region: Region::SectionHeaders,
            offset: 160,
            size: 192,
            file_size: 351,
        })
    );
}

#[test]
fn the_first_violation_in_the_order_of_the_file_is_reported() {
    let (mut bytes, header, mut sections) = file();
    bytes[399] = 1;
    bytes[135] = 1;
    sections[1] = section(1, 100, 35);
    assert_eq!(
        verify_elf_structure(&bytes, &header, &sections, ctx()),
        Err(StructuralError::Overlap {
            region: Region::Section { index: 1, name: 1 },
            offset: 100,
            size: 35,
            covered_up_to: 120,
        })
    );
}
