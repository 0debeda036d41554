use elf_edit::elf::{Container, Ctx, Endian, ProgramHeader, SectionHeader};
use elf_edit::transformer::{
    new_section_sizes, plan_shifts, ComputeShiftsResult, LayoutError, OutputProgramHeadersUpdater,
    SectionDimensions,
};

fn ctx() -> Ctx {
    Ctx { container: Container::Big, le: Endian::Little }
}

fn program_header(p_offset: u64, p_filesz: u64, p_memsz: u64) -> ProgramHeader {
    ProgramHeader {
        p_type: 1,
        p_flags: 5,
        p_offset,
        p_vaddr: 0x1000,
        p_paddr: 0x2000,
        p_filesz,
        p_memsz,
        p_align: 8,
    }
}

fn section_header(sh_name: usize, sh_offset: u64, sh_size: u64, sh_addralign: u64) -> SectionHeader {
    SectionHeader {
        sh_name,
        sh_type: 1,
        sh_flags: 2,
        sh_addr: 0x3000,
        sh_offset,
        sh_size,
        sh_link: 4,
        sh_info: 5,
        sh_addralign,
        sh_entsize: 6,
    }
}

#[test]
fn plan_without_sections_is_empty() {
    let res = plan_shifts(&[program_header(10, 5, 5)], &[], &[]);
    assert_eq!(
        res,
        Ok(ComputeShiftsResult {
            program_headers: vec![],
            section_headers: vec![],
            section_headers_start: 0,
        })
    );
}

#[test]
fn plan_places_each_section_at_the_first_aligned_offset() {
    let sections = vec![
        section_header(1, 100, 3, 0),
        section_header(2, 200, 5, 1),
        section_header(3, 300, 7, 16),
        section_header(4, 400, 1, 4),
        section_header(5, 500, 2, 8),
    ];
    let res = plan_shifts(&[], &sections, &[3, 5, 7, 1, 2]).unwrap();
    let offsets: Vec<u64> = res.section_headers.iter().map(|section| section.sh_offset).collect();
    // 100 + 3 = 103; 103 + 5 = 108 -> 112; 112 + 7 = 119 -> 120; 121 -> 128.
    assert_eq!(offsets, vec![100, 103, 112, 120, 128]);
    assert_eq!(res.section_headers_start, 130);
    for (planned, section) in res.section_headers.iter().zip(sections.iter()) {
        assert_eq!(planned.sh_name, section.sh_name);
        assert_eq!(planned.sh_type, section.sh_type);
        assert_eq!(planned.sh_flags, section.sh_flags);
        assert_eq!(planned.sh_addr, section.sh_addr);
        assert_eq!(planned.sh_size, section.sh_size);
        assert_eq!(planned.sh_link, section.sh_link);
        assert_eq!(planned.sh_info, section.sh_info);
        assert_eq!(planned.sh_addralign, section.sh_addralign);
        assert_eq!(planned.sh_entsize, section.sh_entsize);
    }
}

#[test]
fn plan_aligns_the_first_section_too() {
    let sections = vec![section_header(1, 101, 3, 8)];
    let res = plan_shifts(&[], &sections, &[3]).unwrap();
    assert_eq!(res.section_headers[0].sh_offset, 104);
    assert_eq!(res.section_headers_start, 107);
}

#[test]
fn plan_of_a_packed_layout_without_change_is_the_input() {
    let program_headers = vec![program_header(140, 24, 30), program_header(164, 4, 4)];
    let sections = vec![
        section_header(1, 140, 15, 0),
        section_header(2, 160, 4, 16),
        section_header(3, 164, 4, 4),
    ];
    let res = plan_shifts(&program_headers, &sections, &[15, 4, 4]).unwrap();
    assert_eq!(res.program_headers, program_headers);
    assert_eq!(res.section_headers, sections);
    assert_eq!(res.section_headers_start, 168);
}

#[test]
fn plan_moves_the_size_change_to_the_program_header_and_the_later_sections() {
    let program_headers = vec![program_header(100, 10, 50), program_header(110, 20, 20)];
    let sections = vec![
        section_header(1, 100, 10, 0),
        section_header(2, 110, 5, 0),
        section_header(3, 115, 15, 1),
    ];
    // The first section grows by 7 and ends the first program header.
    let res = plan_shifts(&program_headers, &sections, &[17, 5, 15]).unwrap();
    assert_eq!(res.program_headers[0], program_header(100, 17, 57));
    assert_eq!(res.program_headers[1], program_header(117, 20, 20));
    let offsets: Vec<u64> = res.section_headers.iter().map(|section| section.sh_offset).collect();
    assert_eq!(offsets, vec![100, 117, 122]);
    assert_eq!(res.section_headers_start, 137);
}

#[test]
fn plan_shrinks_the_sizes_of_the_program_header() {
    let program_headers = vec![program_header(100, 30, 40)];
    let sections = vec![section_header(1, 100, 10, 0), section_header(2, 110, 20, 0)];
    let res = plan_shifts(&program_headers, &sections, &[10, 4]).unwrap();
    assert_eq!(res.program_headers[0], program_header(100, 14, 24));
    assert_eq!(res.section_headers_start, 114);
}

#[test]
fn plan_counts_the_file_size_from_the_old_offset_where_the_start_comes_later() {
    // The program header ends with the first section and starts with the
    // second, so its end is bound before its start.
    let program_headers = vec![program_header(120, 0, 0)];
    let sections = vec![section_header(1, 100, 20, 0), section_header(2, 120, 4, 0)];
    let res = plan_shifts(&program_headers, &sections, &[24, 4]).unwrap();
    assert_eq!(res.program_headers[0], program_header(124, 4, 4));
}

#[test]
fn two_sections_at_the_start_of_a_program_header_are_rejected() {
    let program_headers = vec![program_header(140, 24, 24)];
    let sections = vec![
        section_header(1, 140, 0, 0),
        section_header(2, 140, 20, 0),
        section_header(3, 160, 4, 0),
    ];
    let res = plan_shifts(&program_headers, &sections, &[0, 20, 4]);
    assert_eq!(res, Err(LayoutError::StartSeenTwice { program_header: 0 }));
}

#[test]
fn two_sections_at_the_end_of_a_program_header_are_rejected() {
    let program_headers = vec![program_header(140, 24, 24)];
    let sections = vec![
        section_header(1, 140, 24, 0),
        section_header(2, 164, 0, 0),
    ];
    let res = plan_shifts(&program_headers, &sections, &[24, 0]);
    assert_eq!(res, Err(LayoutError::EndSeenTwice { program_header: 0 }));
}

#[test]
fn a_program_header_without_a_section_at_its_start_is_rejected() {
    let program_headers = vec![program_header(140, 24, 24), program_header(150, 14, 14)];
    let sections = vec![section_header(1, 140, 24, 0)];
    let res = plan_shifts(&program_headers, &sections, &[24]);
    assert_eq!(res, Err(LayoutError::StartNotSeen { program_header: 1 }));
}

#[test]
fn a_program_header_without_a_section_at_its_end_is_rejected() {
    let program_headers = vec![program_header(140, 30, 30)];
    let sections = vec![section_header(1, 140, 24, 0)];
    let res = plan_shifts(&program_headers, &sections, &[24]);
    assert_eq!(res, Err(LayoutError::EndNotSeen { program_header: 0 }));
}

#[test]
fn only_the_first_of_two_program_headers_at_one_offset_is_bound() {
    let program_headers = vec![program_header(140, 24, 24), program_header(140, 24, 24)];
    let sections = vec![section_header(1, 140, 24, 0)];
    let res = plan_shifts(&program_headers, &sections, &[24]);
    assert_eq!(res, Err(LayoutError::StartNotSeen { program_header: 1 }));
}

#[test]
fn an_offset_behind_64_bits_is_rejected() {
    let sections = vec![section_header(1, 100, 10, 0), section_header(2, 110, 10, 0)];
    let res = plan_shifts(&[], &sections, &[10, u64::MAX - 100]);
    assert_eq!(res, Err(LayoutError::OffsetOverflow { section: 1 }));
    let sections = vec![section_header(1, u64::MAX - 2, 0, 8)];
    let res = plan_shifts(&[], &sections, &[0]);
    assert_eq!(res, Err(LayoutError::OffsetOverflow { section: 0 }));
    let sections = vec![section_header(1, u64::MAX - 7, 7, 8)];
    let res = plan_shifts(&[], &sections, &[7]).unwrap();
    assert_eq!(res.section_headers_start, u64::MAX);
}

#[test]
fn a_negative_file_size_is_rejected() {
    // The end is bound by the first section, at its new end 105, while the
    // program header still starts at 130.
    let program_headers = vec![program_header(130, 0, 0)];
    let sections = vec![section_header(1, 100, 30, 0), section_header(2, 130, 4, 0)];
    let res = plan_shifts(&program_headers, &sections, &[5, 4]);
    assert_eq!(res, Err(LayoutError::NegativeFileSize { program_header: 0 }));
}

#[test]
fn a_change_of_size_behind_63_bits_is_rejected() {
    let program_headers = vec![program_header(0, 10, 10)];
    let sections = vec![section_header(1, 0, 10, 0)];
    let res = plan_shifts(&program_headers, &sections, &[(1 << 63) + 10]);
    assert_eq!(res, Err(LayoutError::SizeChangeOverflow { program_header: 0 }));
    let res = plan_shifts(&program_headers, &sections, &[(1 << 63) + 9]).unwrap();
    assert_eq!(res.program_headers[0].p_filesz, (1 << 63) + 9);
    assert_eq!(res.program_headers[0].p_memsz, (1 << 63) + 9);
}

#[test]
fn a_size_in_memory_outside_64_bits_is_rejected() {
    let program_headers = vec![program_header(0, 10, u64::MAX - 3)];
    let sections = vec![section_header(1, 0, 10, 0)];
    let res = plan_shifts(&program_headers, &sections, &[14]);
    assert_eq!(res, Err(LayoutError::MemorySizeOverflow { program_header: 0 }));
    let res = plan_shifts(&program_headers, &sections, &[13]).unwrap();
    assert_eq!(res.program_headers[0].p_memsz, u64::MAX);

    let program_headers = vec![program_header(0, 10, 4)];
    let res = plan_shifts(&program_headers, &sections, &[5]);
    assert_eq!(res, Err(LayoutError::MemorySizeOverflow { program_header: 0 }));
    let res = plan_shifts(&program_headers, &sections, &[6]).unwrap();
    assert_eq!(res.program_headers[0].p_memsz, 0);
}

#[test]
fn the_first_failure_in_the_order_of_the_sections_is_reported() {
    let program_headers = vec![program_header(100, 10, 10)];
    let sections = vec![
        section_header(1, 100, 10, 0),
        section_header(2, 100, 10, 0),
        section_header(3, 300, u64::MAX, 0),
    ];
    let res = plan_shifts(&program_headers, &sections, &[10, 10, u64::MAX]);
    assert_eq!(res, Err(LayoutError::StartSeenTwice { program_header: 0 }));
}

#[test]
fn new_section_sizes_takes_the_reported_size_or_the_old_one() {
    let sections = vec![section_header(1, 100, 10, 0), section_header(2, 110, 20, 0)];
    let transformer = |_input: &[u8], section: &SectionHeader, _ctx: Ctx, sink: &mut Vec<u8>| {
        if section.sh_name == 2 {
            // What is written in a dry run is not kept, only the size counts.
            sink.push(1);
            Some(33)
        } else {
            None
        }
    };
    assert_eq!(new_section_sizes(&[], &sections, ctx(), &transformer), vec![10, 33]);
}

#[test]
fn the_updater_binds_start_and_end() {
    let mut updater = OutputProgramHeadersUpdater::new(&[program_header(100, 30, 35)]);
    let moved = updater.observe_file_section(
        SectionDimensions { offset: 100, size: 10 },
        SectionDimensions { offset: 104, size: 12 },
    );
    assert_eq!(moved, Ok(()));
    let moved = updater.observe_file_section(
        SectionDimensions { offset: 110, size: 20 },
        SectionDimensions { offset: 116, size: 20 },
    );
    assert_eq!(moved, Ok(()));
    assert_eq!(updater.into_result(), Ok(vec![program_header(104, 32, 37)]));
}

#[test]
fn the_updater_leaves_other_program_headers_alone() {
    let mut updater = OutputProgramHeadersUpdater::new(&[program_header(100, 30, 35)]);
    let moved = updater.observe_file_section(
        SectionDimensions { offset: 10, size: 10 },
        SectionDimensions { offset: 20, size: 10 },
    );
    assert_eq!(moved, Ok(()));
    assert_eq!(updater.into_result(), Err(LayoutError::StartNotSeen { program_header: 0 }));
}
