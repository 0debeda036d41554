use elf_edit::elf::{Container, Ctx, Endian, ProgramHeader, SectionHeader};
use elf_edit::transformer::{compute_shifts, ComputeShiftsResult};

fn host_ctx() -> Ctx {
    Ctx { container: Container::Big, le: Endian::Little }
}

// Only the offsets and sizes of a program header matter here, so the rest is
// filled with arbitrary values.
fn test_program_header(p_offset: u64, p_filesz: u64, p_align: u64) -> ProgramHeader {
    ProgramHeader {
        p_type: goblin::elf::program_header::PT_HIOS,
        p_flags: 262_999,
        p_offset,
        p_vaddr: p_offset + 89_991,
        p_paddr: p_offset + 60_877,
        p_filesz,
        p_memsz: p_filesz,
        p_align,
    }
}

// Only the offsets, sizes and alignment of a section matter here, and a little
// the names, so the rest is filled with arbitrary values.
fn test_section_header(
    sh_name: usize,
    sh_offset: u64,
    sh_size: u64,
    sh_addralign: u64,
) -> SectionHeader {
    assert!(
        sh_addralign == 0 || (sh_addralign.count_ones() == 1 && sh_addralign <= 64),
        "sh_addralign must be a zero or a power of two, up to 64.\n\
         Got: {sh_addralign}",
    );

    SectionHeader {
        sh_name,
        sh_type: goblin::elf::section_header::SHT_HIUSER,
        sh_flags: 20_724_251,
        sh_addr: 148_258_883,
        sh_offset,
        sh_size,
        sh_link: 90_103,
        sh_info: 295_353,
        sh_addralign,
        sh_entsize: 512_515_680,
    }
}

fn noop_transformer() -> Box<impl Fn(&[u8], &SectionHeader, Ctx, &mut Vec<u8>) -> Option<u64>> {
    Box::new(
        move |_input_bytes: &[u8],
              _section_header: &SectionHeader,
              _ctx: Ctx,
              _output: &mut Vec<u8>|
              -> Option<u64> { None },
    )
}

fn adjust_single_section(
    target_section_name: usize,
    adjustment: i64,
) -> Box<impl Fn(&[u8], &SectionHeader, Ctx, &mut Vec<u8>) -> Option<u64>> {
    Box::new(
        move |_input_bytes: &[u8],
              section_header: &SectionHeader,
              _ctx: Ctx,
              _output: &mut Vec<u8>|
              -> Option<u64> {
            if section_header.sh_name == target_section_name {
                Some(
                    section_header
                        .sh_size
                        .checked_add_signed(adjustment)
                        .expect("Adjusted section size fits into u64"),
                )
            } else {
                None
            }
        },
    )
}

#[test]
fn compute_shifts_noop_no_change() {
    let input_program_headers = vec![test_program_header(140, 24, 4)];
    let input_section_headers = vec![
        test_section_header(1, 140, 15, 0),
        test_section_header(2, 160, 4, 16),
        test_section_header(3, 164, 4, 4),
    ];

    let res = compute_shifts(
        &[],
        &input_program_headers,
        &input_section_headers,
        host_ctx(),
        noop_transformer(),
    );

    assert_eq!(
        res,
        ComputeShiftsResult {
            program_headers: input_program_headers.clone(),
            section_headers: input_section_headers.clone(),
            section_headers_start: 168,
        }
    );
}

#[test]
fn compute_shifts_noop_remove_empty_space_outside_program_section() {
    let input_program_headers = vec![test_program_header(140, 24, 4)];
    let input_section_headers = vec![
        test_section_header(1, 140, 15, 0),
        test_section_header(2, 160, 4, 16),
        test_section_header(3, 168, 4, 4),
    ];

    let res = compute_shifts(
        &[],
        &input_program_headers,
        &input_section_headers,
        host_ctx(),
        noop_transformer(),
    );

    let expected_section_headers = vec![
        test_section_header(1, 140, 15, 0),
        test_section_header(2, 160, 4, 16),
        test_section_header(3, 164, 4, 4),
    ];

    assert_eq!(
        res,
        ComputeShiftsResult {
            program_headers: input_program_headers.clone(),
            section_headers: expected_section_headers,
            section_headers_start: 168,
        }
    );
}

#[test]
fn compute_shifts_noop_remove_empty_space_inside_program_section() {
    let input_program_headers = vec![test_program_header(140, 40, 4)];
    let input_section_headers = vec![
        test_section_header(1, 140, 15, 0),
        test_section_header(2, 176, 4, 16),
        test_section_header(3, 180, 4, 4),
    ];

    let res = compute_shifts(
        &[],
        &input_program_headers,
        &input_section_headers,
        host_ctx(),
        noop_transformer(),
    );

    let expected_program_headers = vec![test_program_header(140, 24, 4)];
    let expected_section_headers = vec![
        test_section_header(1, 140, 15, 0),
        test_section_header(2, 160, 4, 16),
        test_section_header(3, 164, 4, 4),
    ];

    assert_eq!(
        res,
        ComputeShiftsResult {
            program_headers: expected_program_headers,
            section_headers: expected_section_headers,
            section_headers_start: 168,
        }
    );
}

#[test]
fn compute_shifts_one_size_increase_within_padding() {
    let input_program_headers = vec![test_program_header(140, 24, 4)];
    let input_section_headers = vec![
        test_section_header(1, 140, 15, 0),
        test_section_header(2, 160, 4, 16),
        test_section_header(3, 168, 4, 4),
    ];

    let res = compute_shifts(
        &[],
        &input_program_headers,
        &input_section_headers,
        host_ctx(),
        adjust_single_section(2, 3),
    );

    let expected_program_headers = vec![test_program_header(140, 27, 4)];
    let expected_section_headers = vec![
        test_section_header(1, 140, 15, 0),
        test_section_header(2, 160, 7, 16),
        test_section_header(3, 168, 4, 4),
    ];

    assert_eq!(
        res,
        ComputeShiftsResult {
            program_headers: expected_program_headers,
            section_headers: expected_section_headers,
            section_headers_start: 172,
        }
    );
}

#[test]
fn compute_shifts_one_size_increase_with_alignment_update() {
    let input_program_headers = vec![test_program_header(140, 24, 4)];
    let input_section_headers = vec![
        test_section_header(1, 140, 15, 0),
        test_section_header(2, 160, 4, 16),
        test_section_header(3, 164, 4, 4),
    ];

    let res = compute_shifts(
        &[],
        &input_program_headers,
        &input_section_headers,
        host_ctx(),
        adjust_single_section(2, 1),
    );

    let expected_program_headers = vec![test_program_header(140, 25, 4)];
    let expected_section_headers = vec![
        test_section_header(1, 140, 15, 0),
        test_section_header(2, 160, 5, 16),
        test_section_header(3, 168, 4, 4),
    ];

    assert_eq!(
        res,
        ComputeShiftsResult {
            program_headers: expected_program_headers,
            section_headers: expected_section_headers,
            section_headers_start: 172,
        }
    );
}

#[test]
fn compute_shifts_without_sections_gives_an_empty_plan() {
    let res = compute_shifts(
        &[],
        &[test_program_header(140, 24, 4)],
        &[],
        host_ctx(),
        noop_transformer(),
    );

    assert_eq!(
        res,
        ComputeShiftsResult {
            program_headers: vec![],
            section_headers: vec![],
            section_headers_start: 0,
        }
    );
}

#[test]
fn compute_shifts_takes_the_sizes_from_the_transformer() {
    let input_program_headers = vec![test_program_header(100, 30, 8)];
    let input_section_headers = vec![
        test_section_header(1, 100, 10, 0),
        test_section_header(2, 110, 20, 8),
    ];
    let doubled = |_input: &[u8], section: &SectionHeader, _ctx: Ctx, _sink: &mut Vec<u8>| {
        Some(section.sh_size * 2)
    };

    let res = compute_shifts(
        &[],
        &input_program_headers,
        &input_section_headers,
        host_ctx(),
        doubled,
    );

    assert_eq!(
        res,
        ComputeShiftsResult {
            program_headers: vec![test_program_header(100, 60, 8)],
            section_headers: vec![
                test_section_header(1, 100, 20, 0),
                test_section_header(2, 120, 40, 8),
            ],
            section_headers_start: 160,
        }
    );
}
