use elf_edit::elf::{Container, Ctx, Endian, Header, ProgramHeader, SectionHeader};
use elf_edit::modify::keep_all_sections_as_is;
use elf_edit::structure::verify_elf_structure;
use elf_edit::transformer::{
    edit_sections, transform_elf_sections, write_transformed, LayoutError, SectionEdit,
    TransformError,
};
use scroll::ctx::{IntoCtx, TryIntoCtx};

// The two steps of `transform_elf_sections`, with the reason where no image
// can be written.
fn transform<F>(
    input_bytes: &[u8],
    header: &Header,
    program_headers: &[ProgramHeader],
    section_headers: &[SectionHeader],
    ctx: Ctx,
    output: &mut Vec<u8>,
    transformer: F,
) -> Result<(), TransformError>
where
    F: Fn(&[u8], &SectionHeader, Ctx, &mut Vec<u8>) -> Option<u64>,
{
    let sections = if section_headers.is_empty() { section_headers } else { &section_headers[1..] };
    let edits = edit_sections(input_bytes, sections, ctx, &transformer);
    write_transformed(input_bytes, header, program_headers, section_headers, ctx, &edits, output)
}

fn ctx64() -> Ctx {
    Ctx { container: Container::Big, le: Endian::Little }
}

fn ctx32() -> Ctx {
    Ctx { container: Container::Little, le: Endian::Big }
}

fn outside(ctx: Ctx) -> goblin::container::Ctx {
    goblin::container::Ctx::new(
        match ctx.container {
            Container::Little => goblin::container::Container::Little,
            Container::Big => goblin::container::Container::Big,
        },
        match ctx.le {
            Endian::Little => scroll::Endian::Little,
            Endian::Big => scroll::Endian::Big,
        },
    )
}

// The records packed by the codec itself, to hold the images against.

fn pack_header(header: &Header, ctx: Ctx) -> Vec<u8> {
    let value = goblin::elf::Header {
        e_ident: header.e_ident,
        e_type: header.e_type,
        e_machine: header.e_machine,
        e_version: header.e_version,
        e_entry: header.e_entry,
        e_phoff: header.e_phoff,
        e_shoff: header.e_shoff,
        e_flags: header.e_flags,
        e_ehsize: header.e_ehsize,
        e_phentsize: header.e_phentsize,
        e_phnum: header.e_phnum,
        e_shentsize: header.e_shentsize,
        e_shnum: header.e_shnum,
        e_shstrndx: header.e_shstrndx,
    };
    let mut bytes = vec![0u8; goblin::elf::Header::size(outside(ctx))];
    value.into_ctx(&mut bytes, outside(ctx));
    bytes
}

fn pack_program_header(header: &ProgramHeader, ctx: Ctx) -> Vec<u8> {
    let value = goblin::elf::ProgramHeader {
        p_type: header.p_type,
        p_flags: header.p_flags,
        p_offset: header.p_offset,
        p_vaddr: header.p_vaddr,
        p_paddr: header.p_paddr,
        p_filesz: header.p_filesz,
        p_memsz: header.p_memsz,
        p_align: header.p_align,
    };
    let mut bytes = vec![0u8; goblin::elf::ProgramHeader::size(outside(ctx))];
    value.try_into_ctx(&mut bytes, outside(ctx)).unwrap();
    bytes
}

fn pack_section_header(header: &SectionHeader, ctx: Ctx) -> Vec<u8> {
    let value = goblin::elf::SectionHeader {
        sh_name: header.sh_name,
        sh_type: header.sh_type,
        sh_flags: header.sh_flags,
        sh_addr: header.sh_addr,
        sh_offset: header.sh_offset,
        sh_size: header.sh_size,
        sh_link: header.sh_link,
        sh_info: header.sh_info,
        sh_addralign: header.sh_addralign,
        sh_entsize: header.sh_entsize,
    };
    let mut bytes = vec![0u8; goblin::elf::SectionHeader::size(outside(ctx))];
    value.try_into_ctx(&mut bytes, outside(ctx)).unwrap();
    bytes
}

fn header(ctx: Ctx, e_phoff: u64, e_phnum: u16, e_shoff: u64, e_shnum: u16) -> Header {
    let (class, ehsize, phentsize, shentsize) = match ctx.container {
        Container::Little => (1, 52, 32, 40),
        Container::Big => (2, 64, 56, 64),
    };
    let data = match ctx.le {
        Endian::Little => 1,
        Endian::Big => 2,
    };
    Header {
        e_ident: [0x7f, b'E', b'L', b'F', class, data, 1, 0, 0, 0, 0, 0, 0, 0, 0, 0],
        e_type: 3,
        e_machine: 0xf7,
        e_version: 1,
        e_entry: 0x1234,
        e_phoff,
        e_shoff,
        e_flags: 7,
        e_ehsize: ehsize,
        e_phentsize: phentsize,
        e_phnum,
        e_shentsize: shentsize,
        e_shnum,
        e_shstrndx: 2,
    }
}

fn program_header(p_offset: u64, p_filesz: u64, p_memsz: u64) -> ProgramHeader {
    ProgramHeader {
        p_type: 1,
        p_flags: 5,
        p_offset,
        p_vaddr: 0x1000,
        p_paddr: 0x2000,
        p_filesz,
        p_memsz,
        p_align: 8,
    }
}

fn section(sh_name: usize, sh_offset: u64, sh_size: u64, sh_addralign: u64) -> SectionHeader {
    SectionHeader {
        sh_name,
        sh_type: 1,
        sh_flags: 2,
        sh_addr: 0x3000,
        sh_offset,
        sh_size,
        sh_link: 4,
        sh_info: 5,
        sh_addralign,
        sh_entsize: 6,
    }
}

fn null_section() -> SectionHeader {
    SectionHeader {
        sh_name: 0,
        sh_type: 0,
        sh_flags: 0,
        sh_addr: 0,
        sh_offset: 0,
        sh_size: 0,
        sh_link: 0,
        sh_info: 0,
        sh_addralign: 0,
        sh_entsize: 0,
    }
}

struct File {
    bytes: Vec<u8>,
    header: Header,
    program_headers: Vec<ProgramHeader>,
    section_headers: Vec<SectionHeader>,
}

fn first_content() -> Vec<u8> {
    (1..=15).collect()
}

fn second_content() -> Vec<u8> {
    (0xa1..=0xa8).collect()
}

// The image that is expected for the records and the contents of the two
// sections, with zero bytes wherever nothing else lies.
fn image(
    ctx: Ctx,
    header: &Header,
    program_headers: &[ProgramHeader],
    section_headers: &[SectionHeader],
    contents: &[Vec<u8>],
) -> Vec<u8> {
    let mut bytes = pack_header(header, ctx);
    for program_header in program_headers {
        bytes.extend(pack_program_header(program_header, ctx));
    }
    for (section, content) in section_headers[1..].iter().zip(contents) {
        assert!(bytes.len() as u64 <= section.sh_offset);
        bytes.resize(section.sh_offset as usize, 0);
        assert_eq!(content.len() as u64, section.sh_size);
        bytes.extend(content);
    }
    assert!(bytes.len() as u64 <= header.e_shoff);
    bytes.resize(header.e_shoff as usize, 0);
    for section in section_headers {
        bytes.extend(pack_section_header(section, ctx));
    }
    bytes
}

// A packed file: the file header, one program header, a section of 15 bytes,
// one zero byte, a section of 8 bytes aligned at 8, and three section headers.
// The program header starts with the first section and ends with the second.
fn file(ctx: Ctx) -> File {
    let after_tables = match ctx.container {
        Container::Little => 52 + 32,
        Container::Big => 64 + 56,
    };
    let second = (after_tables + 15 + 7) / 8 * 8;
    let header_size = match ctx.container {
        Container::Little => 52,
        Container::Big => 64,
    };
    let header = header(ctx, header_size, 1, second + 8, 3);
    let program_headers = vec![program_header(after_tables, second + 8 - after_tables, 40)];
    let section_headers = vec![
        null_section(),
        section(1, after_tables, 15, 0),
        section(7, second, 8, 8),
    ];
    let bytes = image(
        ctx,
        &header,
        &program_headers,
        &section_headers,
        &[first_content(), second_content()],
    );
    File { bytes, header, program_headers, section_headers }
}

#[test]
fn the_file_of_these_tests_has_the_supported_layout() {
    let file64 = file(ctx64());
    assert_eq!(file64.bytes.len(), 144 + 3 * 64);
    assert_eq!(
        verify_elf_structure(&file64.bytes, &file64.header, &file64.section_headers, ctx64()),
        Ok(())
    );
    let file32 = file(ctx32());
    assert_eq!(file32.bytes.len(), 112 + 3 * 40);
    assert_eq!(
        verify_elf_structure(&file32.bytes, &file32.header, &file32.section_headers, ctx32()),
        Ok(())
    );
}

#[test]
fn a_relayout_without_change_gives_the_input_back() {
    for ctx in [ctx64(), ctx32()] {
        let file = file(ctx);
        let mut output = Vec::new();
        transform_elf_sections(
            &file.bytes,
            &file.header,
            &file.program_headers,
            &file.section_headers,
            ctx,
            &mut output,
            keep_all_sections_as_is(),
        );
            assert_eq!(output, file.bytes);
    }
}

#[test]
fn the_image_is_appended_to_the_output() {
    let file = file(ctx64());
    let mut output = vec![1, 2, 3];
    transform_elf_sections(
        &file.bytes,
        &file.header,
        &file.program_headers,
        &file.section_headers,
        ctx64(),
        &mut output,
        keep_all_sections_as_is(),
    );
    assert_eq!(output[..3], [1, 2, 3]);
    assert_eq!(output[3..], file.bytes[..]);
}

#[test]
fn a_relayout_removes_the_gaps_that_no_alignment_asks_for() {
    let ctx = ctx64();
    let header = header(ctx, 64, 1, 200, 3);
    let program_headers = vec![program_header(130, 40, 40)];
    let section_headers = vec![null_section(), section(1, 130, 15, 0), section(7, 162, 8, 8)];
    let bytes = image(
        ctx,
        &header,
        &program_headers,
        &section_headers,
        &[first_content(), second_content()],
    );
    assert_eq!(verify_elf_structure(&bytes, &header, &section_headers, ctx), Ok(()));

    let mut output = Vec::new();
    transform_elf_sections(
        &bytes,
        &header,
        &program_headers,
        &section_headers,
        ctx,
        &mut output,
        keep_all_sections_as_is(),
    );
    // The first section stays at its offset; what follows is packed.
    let expected_header = Header { e_shoff: 160, ..header };
    let expected_program_headers = vec![program_header(130, 30, 30)];
    let expected_section_headers =
        vec![null_section(), section(1, 130, 15, 0), section(7, 152, 8, 8)];
    assert_eq!(
        output,
        image(
            ctx,
            &expected_header,
            &expected_program_headers,
            &expected_section_headers,
            &[first_content(), second_content()],
        )
    );
}

fn grow_first(by: &'static [u8]) -> impl Fn(&[u8], &SectionHeader, Ctx, &mut Vec<u8>) -> Option<u64> {
    move |input: &[u8], section: &SectionHeader, _ctx: Ctx, sink: &mut Vec<u8>| {
        if section.sh_name == 1 {
            let start = section.sh_offset as usize;
            sink.extend_from_slice(&input[start..start + section.sh_size as usize]);
            sink.extend_from_slice(by);
            Some(section.sh_size + by.len() as u64)
        } else {
            None
        }
    }
}

#[test]
fn a_section_that_grows_moves_what_follows_it() {
    let ctx = ctx64();
    let file = file(ctx);
    let mut output = Vec::new();
    transform_elf_sections(
        &file.bytes,
        &file.header,
        &file.program_headers,
        &file.section_headers,
        ctx,
        &mut output,
        grow_first(&[0x51, 0x52]),
    );

    // 120 + 17 = 137, so the second section moves from 136 to 144.
    let expected_header = Header { e_shoff: 152, ..file.header };
    let expected_program_headers = vec![program_header(120, 32, 48)];
    let expected_section_headers =
        vec![null_section(), section(1, 120, 17, 0), section(7, 144, 8, 8)];
    let mut first = first_content();
    first.extend([0x51, 0x52]);
    let expected = image(
        ctx,
        &expected_header,
        &expected_program_headers,
        &expected_section_headers,
        &[first, second_content()],
    );
    assert_eq!(output, expected);
    assert_eq!(
        verify_elf_structure(&output, &expected_header, &expected_section_headers, ctx),
        Ok(())
    );
}

#[test]
fn a_section_that_grows_within_the_padding_moves_nothing() {
    let ctx = ctx32();
    let file = file(ctx);
    // 84 + 15 = 99, and the second section lies at 104.
    assert_eq!(file.section_headers[2].sh_offset, 104);
    let mut output = Vec::new();
    transform_elf_sections(
        &file.bytes,
        &file.header,
        &file.program_headers,
        &file.section_headers,
        ctx,
        &mut output,
        grow_first(&[0x51, 0x52, 0x53, 0x54, 0x55]),
    );
    let mut expected = file.bytes.clone();
    expected[99..104].copy_from_slice(&[0x51, 0x52, 0x53, 0x54, 0x55]);
    let first_header = pack_section_header(&section(1, 84, 20, 0), ctx);
    expected[112 + 40..112 + 80].copy_from_slice(&first_header);
    assert_eq!(output, expected);
}

#[test]
fn write_transformed_takes_the_edits_as_they_are() {
    let ctx = ctx64();
    let file = file(ctx);
    let edits = vec![
        SectionEdit { new_size: None, content: vec![9, 9, 9] },
        SectionEdit { new_size: Some(3), content: vec![0x61, 0x62, 0x63] },
    ];
    let mut output = Vec::new();
    let res = write_transformed(
        &file.bytes,
        &file.header,
        &file.program_headers,
        &file.section_headers,
        ctx,
        &edits,
        &mut output,
    );
    assert_eq!(res, Ok(()));
    let expected_header = Header { e_shoff: 139, ..file.header };
    let expected_program_headers = vec![program_header(120, 19, 35)];
    let expected_section_headers =
        vec![null_section(), section(1, 120, 15, 0), section(7, 136, 3, 8)];
    assert_eq!(
        output,
        image(
            ctx,
            &expected_header,
            &expected_program_headers,
            &expected_section_headers,
            &[first_content(), vec![0x61, 0x62, 0x63]],
        )
    );
}

#[test]
fn edit_sections_keeps_what_the_transformation_reports_and_writes() {
    let file = file(ctx64());
    let edits = edit_sections(
        &file.bytes,
        &file.section_headers[1..],
        ctx64(),
        &grow_first(&[0x51]),
    );
    let mut first = first_content();
    first.push(0x51);
    assert_eq!(
        edits,
        vec![
            SectionEdit { new_size: Some(16), content: first },
            SectionEdit { new_size: None, content: vec![] },
        ]
    );
}

#[test]
fn a_reported_size_other_than_what_was_written_is_rejected() {
    let file = file(ctx64());
    let mut output = Vec::new();
    let res = transform(
        &file.bytes,
        &file.header,
        &file.program_headers,
        &file.section_headers,
        ctx64(),
        &mut output,
        |_input: &[u8], section: &SectionHeader, _ctx: Ctx, sink: &mut Vec<u8>| {
            if section.sh_name == 7 {
                sink.extend_from_slice(&[1, 2]);
                Some(3)
            } else {
                None
            }
        },
    );
    assert_eq!(res, Err(TransformError::SizeMismatch { section: 1, reported: 3, written: 2 }));
    assert_eq!(output, Vec::<u8>::new());
}

#[test]
fn a_layout_that_cannot_be_planned_is_rejected() {
    let mut file = file(ctx64());
    file.program_headers[0].p_offset = 121;
    let mut output = Vec::new();
    let res = transform(
        &file.bytes,
        &file.header,
        &file.program_headers,
        &file.section_headers,
        ctx64(),
        &mut output,
        keep_all_sections_as_is(),
    );
    assert_eq!(res, Err(TransformError::Layout(LayoutError::StartNotSeen { program_header: 0 })));
}

#[test]
fn a_header_without_a_byte_order_is_rejected() {
    let mut file = file(ctx64());
    file.header.e_ident[5] = 3;
    let mut output = Vec::new();
    let res = transform(
        &file.bytes,
        &file.header,
        &file.program_headers,
        &file.section_headers,
        ctx64(),
        &mut output,
        keep_all_sections_as_is(),
    );
    assert_eq!(res, Err(TransformError::HeaderByteOrder));
}

#[test]
fn the_byte_order_of_the_header_is_the_one_it_names() {
    // The context asks for little endian and the header names big endian: the
    // header is packed as it names it, the tables as the context asks.
    let ctx = ctx64();
    let mut file = file(ctx);
    file.header.e_ident[5] = 2;
    let mut output = Vec::new();
    transform_elf_sections(
        &file.bytes,
        &file.header,
        &file.program_headers,
        &file.section_headers,
        ctx,
        &mut output,
        keep_all_sections_as_is(),
    );
    assert_eq!(output[..64], pack_header(&file.header, ctx)[..]);
    assert_eq!(output[16..18], [0, 3]);
    assert_eq!(output[64..], file.bytes[64..]);
}

#[test]
fn program_headers_away_from_the_file_header_are_rejected() {
    let mut file = file(ctx64());
    file.header.e_phoff = 72;
    let mut output = Vec::new();
    let res = transform(
        &file.bytes,
        &file.header,
        &file.program_headers,
        &file.section_headers,
        ctx64(),
        &mut output,
        keep_all_sections_as_is(),
    );
    assert_eq!(
        res,
        Err(TransformError::ProgramHeadersNotAdjacent { header_size: 64, offset: 72 })
    );
    let res = transform(
        &file.bytes,
        &file.header,
        &file.program_headers,
        &file.section_headers,
        ctx32(),
        &mut output,
        keep_all_sections_as_is(),
    );
    assert_eq!(
        res,
        Err(TransformError::ProgramHeadersNotAdjacent { header_size: 52, offset: 72 })
    );
}

#[test]
fn a_section_planned_within_the_tables_is_rejected() {
    let mut file = file(ctx64());
    file.section_headers[1].sh_offset = 100;
    file.section_headers[1].sh_size = 35;
    file.program_headers[0] = program_header(100, 44, 44);
    let mut output = Vec::new();
    let res = transform(
        &file.bytes,
        &file.header,
        &file.program_headers,
        &file.section_headers,
        ctx64(),
        &mut output,
        keep_all_sections_as_is(),
    );
    assert_eq!(res, Err(TransformError::PaddingBehind { target: 100, written_up_to: 120 }));
}

#[test]
fn a_file_without_content_sections_is_rejected() {
    let file = file(ctx64());
    let mut output = Vec::new();
    let res = transform(
        &file.bytes,
        &file.header,
        &[],
        &file.section_headers[..1],
        ctx64(),
        &mut output,
        keep_all_sections_as_is(),
    );
    assert_eq!(res, Err(TransformError::PaddingBehind { target: 0, written_up_to: 64 }));
    let res = transform(
        &file.bytes,
        &file.header,
        &[],
        &[],
        ctx64(),
        &mut output,
        keep_all_sections_as_is(),
    );
    assert_eq!(res, Err(TransformError::PaddingBehind { target: 0, written_up_to: 64 }));
}

#[test]
fn a_kept_section_outside_of_the_input_is_rejected() {
    let file = file(ctx64());
    let mut output = Vec::new();
    let res = transform(
        &file.bytes[..140],
        &file.header,
        &file.program_headers,
        &file.section_headers,
        ctx64(),
        &mut output,
        keep_all_sections_as_is(),
    );
    assert_eq!(res, Err(TransformError::SectionOutOfInput { section: 1 }));
    // What was written up to the error is left in the output.
    assert_eq!(output[..], file.bytes[..135]);
}
