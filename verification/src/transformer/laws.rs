//! What holds of every planned layout, and of every new image.

use crate::codec::{header_bytes, header_size_of};
use crate::elf::{Ctx, Header, ProgramHeader, SectionHeader};
use crate::structure::{
    all_zero, end_before, lemma_checked_sections, lemma_region_check_of_longer,
    lemma_sections_check_of_longer, region_check, sections_check, structure, Region,
    StructuralError,
};
use crate::transformer::steps::{
    cursor_before, lemma_aligned_is_smallest, lemma_first_end, lemma_first_start,
    lemma_flags_stay, lemma_observe_in_place, lemma_offset_stays_once_bound,
    lemma_placed_by_sizes, lemma_placed_headers, lemma_placed_prefix, lemma_placed_sections,
    lemma_placed_step, lemma_sizes_stay_once_bound, lemma_sizes_until_bound, lemma_some_end,
    lemma_some_start,
};
use crate::transformer::{
    aligned_at_or_after, content_after, content_sections, dimensions_of, first_end,
    first_mismatch, first_start, is_first_end, is_first_mismatch, is_first_start, is_mismatch,
    observe_end,
    observe_start, placed, planned_image, program_headers_image, section_header_table,
    section_headers_image, sections_image, shifts, sizes_after, transformed, zeros, Edit, Plan,
    SectionDimensions, TransformError,
};
use vstd::prelude::*;

verus! {

/// The sizes that the sections have in the input.
pub open spec fn sizes_of(section_headers: Seq<SectionHeader>) -> Seq<u64> {
    Seq::new(section_headers.len(), |i: int| section_headers[i].sh_size)
}

/// Every section already lies at the first aligned offset at or after the end
/// of the section before it, and the first section at an aligned offset.
pub open spec fn packed(section_headers: Seq<SectionHeader>) -> bool {
    forall|k: int|
        0 <= k < section_headers.len() ==> (#[trigger] section_headers[k]).sh_offset
            == aligned_at_or_after(
            cursor_before(section_headers, section_headers, k),
            section_headers[k].sh_addralign as int,
        )
}

/// In a planned layout every section stands at the smallest multiple of its
/// alignment that is at or after the end of the section before it (for the
/// first section: at or after its offset in the input). A section with an
/// alignment of 0 or 1 stands at that end itself. So no gap is left between
/// two sections but what the alignment of the second asks for.
pub proof fn lemma_offsets_are_aligned(
    program_headers: Seq<ProgramHeader>,
    section_headers: Seq<SectionHeader>,
    sizes: Seq<u64>,
    k: int,
)
    requires
        sizes.len() == section_headers.len(),
        shifts(program_headers, section_headers, sizes) is Ok,
        0 <= k < section_headers.len(),
    ensures
        ({
            let plan = shifts(program_headers, section_headers, sizes)->Ok_0;
            let cursor = cursor_before(section_headers, plan.section_headers, k);
            let align = section_headers[k].sh_addralign as int;
            let offset = plan.section_headers[k].sh_offset as int;
            &&& plan.section_headers.len() == section_headers.len()
            &&& align <= 1 ==> offset == cursor
            &&& align > 1 ==> offset % align == 0 && cursor <= offset < cursor + align
            &&& forall|m: int| align > 1 && cursor <= m && #[trigger] (m % align) == 0 ==> offset <= m
        }),
{
    let plan = shifts(program_headers, section_headers, sizes)->Ok_0;
    lemma_placed_sections(program_headers, section_headers, sizes, section_headers.len());
    let cursor = cursor_before(section_headers, plan.section_headers, k);
    lemma_aligned_is_smallest(cursor, section_headers[k].sh_addralign as int);
    assert(plan.section_headers[k].sh_offset == aligned_at_or_after(
        cursor,
        section_headers[k].sh_addralign as int,
    ));
}

/// A planned layout has as many sections and program headers as the input. A
/// section keeps every field but its offset and its size, and its size is the
/// one that was handed in. A program header keeps every field but its offset
/// and its two sizes. The section header table starts just past the last
/// section.
pub proof fn lemma_plan_keeps_the_rest(
    program_headers: Seq<ProgramHeader>,
    section_headers: Seq<SectionHeader>,
    sizes: Seq<u64>,
)
    requires
        sizes.len() == section_headers.len(),
        section_headers.len() > 0,
        shifts(program_headers, section_headers, sizes) is Ok,
    ensures
        ({
            let plan = shifts(program_headers, section_headers, sizes)->Ok_0;
            &&& plan.section_headers.len() == section_headers.len()
            &&& plan.program_headers.len() == program_headers.len()
            &&& plan.section_headers_start == plan.section_headers.last().end()
            &&& forall|k: int|
                0 <= k < section_headers.len() ==> #[trigger] plan.section_headers[k]
                    == SectionHeader {
                    sh_offset: plan.section_headers[k].sh_offset,
                    sh_size: sizes[k],
                    ..section_headers[k]
                }
            &&& forall|j: int|
                0 <= j < program_headers.len() ==> #[trigger] plan.program_headers[j]
                    == ProgramHeader {
                    p_offset: plan.program_headers[j].p_offset,
                    p_filesz: plan.program_headers[j].p_filesz,
                    p_memsz: plan.program_headers[j].p_memsz,
                    ..program_headers[j]
                }
        }),
{
    lemma_placed_sections(program_headers, section_headers, sizes, section_headers.len());
    lemma_placed_headers(program_headers, section_headers, sizes, section_headers.len());
}

/// With the sizes of the input, the first `n` sections of a packed layout stay
/// where they are, and so do the program headers.
proof fn lemma_unchanged_prefix(
    program_headers: Seq<ProgramHeader>,
    section_headers: Seq<SectionHeader>,
    n: nat,
)
    requires
        n <= section_headers.len(),
        packed(section_headers),
        placed(program_headers, section_headers, sizes_of(section_headers), n) is Ok,
    ensures
        ({
            let progress = placed(
                program_headers,
                section_headers,
                sizes_of(section_headers),
                n,
            )->Ok_0;
            &&& progress.sections == section_headers.take(n as int)
            &&& progress.bindings.len() == program_headers.len()
            &&& forall|j: int|
                0 <= j < program_headers.len() ==> (#[trigger] progress.bindings[j]).header
                    == program_headers[j]
        }),
    decreases n,
{
    let sizes = sizes_of(section_headers);
    let progress = placed(program_headers, section_headers, sizes, n)->Ok_0;
    if n == 0 {
        assert(progress.sections =~= section_headers.take(0));
    } else {
        let before = placed(program_headers, section_headers, sizes, (n - 1) as nat)->Ok_0;
        lemma_unchanged_prefix(program_headers, section_headers, (n - 1) as nat);
        lemma_placed_sections(program_headers, section_headers, sizes, (n - 1) as nat);
        let header = section_headers[n - 1];
        assert(before.cursor == cursor_before(section_headers, section_headers, n - 1));
        assert(header.sh_offset == aligned_at_or_after(
            before.cursor as int,
            header.sh_addralign as int,
        ));
        let was = SectionDimensions { offset: header.sh_offset, size: header.sh_size };
        lemma_observe_in_place(dimensions_of(program_headers), before.bindings, was);
        assert(progress.sections =~= section_headers.take(n as int));
    }
}

/// Where no section changes its size and the sections are packed already, the
/// planned layout is the layout of the input: the section headers and the
/// program headers are the same, and the section header table starts just
/// past the last section.
pub proof fn lemma_no_change_keeps_a_packed_layout(
    program_headers: Seq<ProgramHeader>,
    section_headers: Seq<SectionHeader>,
)
    requires
        section_headers.len() > 0,
        packed(section_headers),
        shifts(program_headers, section_headers, sizes_of(section_headers)) is Ok,
    ensures
        ({
            let plan = shifts(program_headers, section_headers, sizes_of(section_headers))->Ok_0;
            &&& plan.section_headers == section_headers
            &&& plan.program_headers == program_headers
            &&& plan.section_headers_start == section_headers.last().end()
        }),
{
    let sizes = sizes_of(section_headers);
    let plan = shifts(program_headers, section_headers, sizes)->Ok_0;
    lemma_unchanged_prefix(program_headers, section_headers, section_headers.len());
    lemma_placed_sections(program_headers, section_headers, sizes, section_headers.len());
    assert(section_headers.take(section_headers.len() as int) =~= section_headers);
    assert(plan.program_headers =~= program_headers);
}

/// Two sections that both start where one program header starts cannot be
/// laid out: the planning fails, whatever their new sizes are.
pub proof fn lemma_shared_start_is_fatal(
    program_headers: Seq<ProgramHeader>,
    section_headers: Seq<SectionHeader>,
    sizes: Seq<u64>,
    a: int,
    b: int,
    j: int,
)
    requires
        sizes.len() == section_headers.len(),
        0 <= a < b < section_headers.len(),
        0 <= j < program_headers.len(),
        section_headers[a].sh_offset == program_headers[j].p_offset,
        section_headers[b].sh_offset == program_headers[j].p_offset,
    ensures
        shifts(program_headers, section_headers, sizes) is Err,
{
    if shifts(program_headers, section_headers, sizes) is Ok {
        let offset = program_headers[j].p_offset;
        let originals = dimensions_of(program_headers);
        // Some program header starts at the offset, so there is a first one.
        assert(originals[j].offset == offset);
        lemma_some_start(originals, offset, j);
        lemma_first_start(originals, offset);
        let i = first_start(originals, offset)->Some_0;
        lemma_placed_prefix(
            program_headers,
            section_headers,
            sizes,
            (b + 1) as nat,
            section_headers.len(),
        );
        lemma_placed_prefix(program_headers, section_headers, sizes, (a + 1) as nat, (b + 1) as nat);
        // Section `a` binds its start, it stays bound, and section `b` needs
        // it unbound.
        lemma_placed_step(program_headers, section_headers, sizes, a as nat, i);
        lemma_flags_stay(program_headers, section_headers, sizes, (a + 1) as nat, b as nat, i);
        lemma_placed_step(program_headers, section_headers, sizes, b as nat, i);
        assert(false);
    }
}

/// Two sections that both end where one program header ends cannot be laid
/// out: the planning fails, whatever their new sizes are.
pub proof fn lemma_shared_end_is_fatal(
    program_headers: Seq<ProgramHeader>,
    section_headers: Seq<SectionHeader>,
    sizes: Seq<u64>,
    a: int,
    b: int,
    j: int,
)
    requires
        sizes.len() == section_headers.len(),
        0 <= a < b < section_headers.len(),
        0 <= j < program_headers.len(),
        section_headers[a].end() == program_headers[j].file_end(),
        section_headers[b].end() == program_headers[j].file_end(),
    ensures
        shifts(program_headers, section_headers, sizes) is Err,
{
    if shifts(program_headers, section_headers, sizes) is Ok {
        let end = program_headers[j].file_end();
        let originals = dimensions_of(program_headers);
        assert(originals[j].end() == end);
        lemma_some_end(originals, end, j);
        lemma_first_end(originals, end);
        let i = first_end(originals, end)->Some_0;
        lemma_placed_prefix(
            program_headers,
            section_headers,
            sizes,
            (b + 1) as nat,
            section_headers.len(),
        );
        lemma_placed_prefix(program_headers, section_headers, sizes, (a + 1) as nat, (b + 1) as nat);
        lemma_placed_step(program_headers, section_headers, sizes, a as nat, i);
        lemma_flags_stay(program_headers, section_headers, sizes, (a + 1) as nat, b as nat, i);
        lemma_placed_step(program_headers, section_headers, sizes, b as nat, i);
        assert(false);
    }
}

/// Where section `s` started with program header `j` in the input, the
/// program header starts where `s` starts, from that section on.
proof fn lemma_starts_with_its_section(
    program_headers: Seq<ProgramHeader>,
    section_headers: Seq<SectionHeader>,
    sizes: Seq<u64>,
    j: int,
    s: int,
    m: nat,
)
    requires
        sizes.len() == section_headers.len(),
        0 <= s < m <= section_headers.len(),
        is_first_start(dimensions_of(program_headers), section_headers[s].sh_offset, j),
        placed(program_headers, section_headers, sizes, m) is Ok,
    ensures
        ({
            let at = placed(program_headers, section_headers, sizes, m)->Ok_0;
            &&& at.bindings.len() == program_headers.len()
            &&& at.sections.len() == m
            &&& at.bindings[j].update.start
            &&& at.bindings[j].header.p_offset == at.sections[s].sh_offset
        }),
{
    let originals = dimensions_of(program_headers);
    lemma_first_start(originals, section_headers[s].sh_offset);
    lemma_placed_prefix(program_headers, section_headers, sizes, (s + 1) as nat, m);
    lemma_placed_prefix(program_headers, section_headers, sizes, m, m);
    lemma_placed_step(program_headers, section_headers, sizes, s as nat, j);
    lemma_offset_stays_once_bound(
        program_headers,
        section_headers,
        sizes,
        (s + 1) as nat,
        m,
        j,
    );
    let after_s = placed(program_headers, section_headers, sizes, (s + 1) as nat)->Ok_0;
    let at = placed(program_headers, section_headers, sizes, m)->Ok_0;
    assert(after_s.sections[s] == at.sections.take(s + 1)[s]);
}

/// Where section `e` ended with program header `j` in the input, the size of
/// the program header in the file reaches from where it starts after that
/// section to where `e` ends, from that section on, and its size in memory has
/// changed by as much as its size in the file.
proof fn lemma_ends_with_its_section(
    program_headers: Seq<ProgramHeader>,
    section_headers: Seq<SectionHeader>,
    sizes: Seq<u64>,
    j: int,
    e: int,
    m: nat,
)
    requires
        sizes.len() == section_headers.len(),
        0 <= e < m <= section_headers.len(),
        is_first_end(dimensions_of(program_headers), section_headers[e].end(), j),
        placed(program_headers, section_headers, sizes, m) is Ok,
    ensures
        ({
            let at = placed(program_headers, section_headers, sizes, m)->Ok_0;
            let after_e = placed(program_headers, section_headers, sizes, (e + 1) as nat)->Ok_0;
            &&& placed(program_headers, section_headers, sizes, (e + 1) as nat) is Ok
            &&& at.bindings.len() == program_headers.len()
            &&& after_e.bindings.len() == program_headers.len()
            &&& at.sections.len() == m
            &&& at.bindings[j].header.p_filesz == at.sections[e].end()
                - after_e.bindings[j].header.p_offset
            &&& at.bindings[j].header.p_memsz - program_headers[j].p_memsz
                == at.bindings[j].header.p_filesz - program_headers[j].p_filesz
        }),
{
    let originals = dimensions_of(program_headers);
    lemma_first_end(originals, section_headers[e].end());
    lemma_placed_prefix(program_headers, section_headers, sizes, (e + 1) as nat, m);
    lemma_placed_prefix(program_headers, section_headers, sizes, m, m);
    lemma_placed_step(program_headers, section_headers, sizes, e as nat, j);
    lemma_sizes_until_bound(program_headers, section_headers, sizes, e as nat, j);
    lemma_sizes_stay_once_bound(
        program_headers,
        section_headers,
        sizes,
        (e + 1) as nat,
        m,
        j,
    );
    let after_e = placed(program_headers, section_headers, sizes, (e + 1) as nat)->Ok_0;
    let at = placed(program_headers, section_headers, sizes, m)->Ok_0;
    assert(after_e.sections[e] == at.sections.take(e + 1)[e]);
}

/// In a planned layout a program header spans the sections that it spanned
/// in the input. Where section `s` started with program header `j` in the
/// input and section `e`, not before `s`, ended with it, the program header
/// starts where `s` starts now, its size in the file reaches to where `e`
/// ends now, and its size in memory has changed by as much as its size in
/// the file.
pub proof fn lemma_program_header_spans_its_sections(
    program_headers: Seq<ProgramHeader>,
    section_headers: Seq<SectionHeader>,
    sizes: Seq<u64>,
    j: int,
    s: int,
    e: int,
)
    requires
        sizes.len() == section_headers.len(),
        0 <= s <= e < section_headers.len(),
        is_first_start(dimensions_of(program_headers), section_headers[s].sh_offset, j),
        is_first_end(dimensions_of(program_headers), section_headers[e].end(), j),
        shifts(program_headers, section_headers, sizes) is Ok,
    ensures
        ({
            let plan = shifts(program_headers, section_headers, sizes)->Ok_0;
            &&& plan.program_headers.len() == program_headers.len()
            &&& plan.section_headers.len() == section_headers.len()
            &&& plan.program_headers[j].p_offset == plan.section_headers[s].sh_offset
            &&& plan.program_headers[j].p_filesz == plan.section_headers[e].end()
                - plan.section_headers[s].sh_offset
            &&& plan.program_headers[j].p_memsz - program_headers[j].p_memsz
                == plan.program_headers[j].p_filesz - program_headers[j].p_filesz
        }),
{
    let len = section_headers.len();
    lemma_starts_with_its_section(program_headers, section_headers, sizes, j, s, len);
    lemma_ends_with_its_section(program_headers, section_headers, sizes, j, e, len);
    lemma_starts_with_its_section(
        program_headers,
        section_headers,
        sizes,
        j,
        s,
        (e + 1) as nat,
    );
    lemma_placed_prefix(program_headers, section_headers, sizes, (e + 1) as nat, len);
    let after_e = placed(program_headers, section_headers, sizes, (e + 1) as nat)->Ok_0;
    let at_end = placed(program_headers, section_headers, sizes, len)->Ok_0;
    assert(after_e.sections[s] == at_end.sections.take(e + 1)[s]);
}

/// A section of a packed layout that changes its size stays where it is, as do
/// the sections before it, and the program header that ended with it changes
/// its two sizes by as much.
proof fn lemma_changed_section(
    program_headers: Seq<ProgramHeader>,
    section_headers: Seq<SectionHeader>,
    sizes: Seq<u64>,
    k: int,
    j: int,
)
    requires
        sizes.len() == section_headers.len(),
        0 <= k < section_headers.len(),
        packed(section_headers),
        forall|i: int| 0 <= i < k ==> sizes[i] == section_headers[i].sh_size,
        is_first_end(dimensions_of(program_headers), section_headers[k].end(), j),
        placed(program_headers, section_headers, sizes, (k + 1) as nat) is Ok,
    ensures
        ({
            let after = placed(program_headers, section_headers, sizes, (k + 1) as nat)->Ok_0;
            let change = sizes[k] - section_headers[k].sh_size;
            &&& after.bindings.len() == program_headers.len()
            &&& after.sections.len() == k + 1
            &&& after.bindings[j].update.end
            &&& after.bindings[j].header.p_filesz == program_headers[j].p_filesz + change
            &&& after.bindings[j].header.p_memsz == program_headers[j].p_memsz + change
            &&& forall|i: int|
                0 <= i <= k ==> (#[trigger] after.sections[i]).sh_offset
                    == section_headers[i].sh_offset
        }),
{
    let originals = dimensions_of(program_headers);
    lemma_placed_by_sizes(
        program_headers,
        section_headers,
        sizes,
        sizes_of(section_headers),
        k as nat,
    );
    lemma_unchanged_prefix(program_headers, section_headers, k as nat);
    lemma_placed_sections(program_headers, section_headers, sizes, k as nat);
    let before = placed(program_headers, section_headers, sizes, k as nat)->Ok_0;
    let after = placed(program_headers, section_headers, sizes, (k + 1) as nat)->Ok_0;
    let header = section_headers[k];
    assert(before.cursor == cursor_before(section_headers, section_headers, k));
    assert(header.sh_offset == aligned_at_or_after(
        before.cursor as int,
        header.sh_addralign as int,
    ));
    let was = SectionDimensions { offset: header.sh_offset, size: header.sh_size };
    let now = SectionDimensions { offset: header.sh_offset, size: sizes[k] };
    lemma_first_start(originals, was.offset);
    lemma_first_end(originals, was.end());
    let started = observe_start(originals, before.bindings, was, now)->Ok_0;
    assert(started[j].header == program_headers[j]);
    assert(first_end(originals, was.end()) == Some(j));
    assert(after.bindings == observe_end(originals, started, was, now)->Ok_0);
    assert(after.sections == before.sections.push(
        SectionHeader { sh_offset: header.sh_offset, sh_size: sizes[k], ..header },
    ));
    assert forall|i: int| 0 <= i <= k implies (#[trigger] after.sections[i]).sh_offset
        == section_headers[i].sh_offset by {
        if i < k {
            assert(before.sections[i] == section_headers[i]);
        }
    }
}

/// The sections behind a changed one, up to the first that has an alignment,
/// move by as much as the size changed.
proof fn lemma_moved_behind(
    program_headers: Seq<ProgramHeader>,
    section_headers: Seq<SectionHeader>,
    sizes: Seq<u64>,
    k: int,
    i: int,
)
    requires
        sizes.len() == section_headers.len(),
        0 <= k < i < section_headers.len(),
        packed(section_headers),
        forall|m: int|
            0 <= m < section_headers.len() && m != k ==> sizes[m] == section_headers[m].sh_size,
        forall|m: int| k < m <= i ==> (#[trigger] section_headers[m]).sh_addralign <= 1,
        placed(program_headers, section_headers, sizes, section_headers.len()) is Ok,
        placed(program_headers, section_headers, sizes, section_headers.len())->Ok_0.sections[k].sh_offset
            == section_headers[k].sh_offset,
    ensures
        placed(program_headers, section_headers, sizes, section_headers.len())->Ok_0.sections[i].sh_offset
            == section_headers[i].sh_offset + sizes[k] - section_headers[k].sh_size,
    decreases i - k,
{
    let planned = placed(program_headers, section_headers, sizes, section_headers.len())->Ok_0.sections;
    lemma_placed_sections(program_headers, section_headers, sizes, section_headers.len());
    if i - 1 > k {
        lemma_moved_behind(program_headers, section_headers, sizes, k, i - 1);
    }
    assert(section_headers[i].sh_addralign <= 1);
    lemma_aligned_is_smallest(
        cursor_before(section_headers, planned, i),
        section_headers[i].sh_addralign as int,
    );
    lemma_aligned_is_smallest(
        cursor_before(section_headers, section_headers, i),
        section_headers[i].sh_addralign as int,
    );
    assert(planned[i].sh_offset == planned[i - 1].end());
    assert(section_headers[i].sh_offset == section_headers[i - 1].end());
    assert(planned[i - 1].sh_size == sizes[i - 1]);
}

/// Where one section of a packed layout changes its size, and a program
/// header ended with that section, the size in the file and the size in
/// memory of the program header change by exactly as much. The sections up to
/// the changed one stay where they are. The sections behind it move by as
/// much as the size changed, up to the first one that has an alignment.
pub proof fn lemma_size_change_reaches_the_program_header(
    program_headers: Seq<ProgramHeader>,
    section_headers: Seq<SectionHeader>,
    sizes: Seq<u64>,
    k: int,
    j: int,
)
    requires
        sizes.len() == section_headers.len(),
        0 <= k < section_headers.len(),
        packed(section_headers),
        forall|i: int|
            0 <= i < section_headers.len() && i != k ==> sizes[i] == section_headers[i].sh_size,
        is_first_end(dimensions_of(program_headers), section_headers[k].end(), j),
        shifts(program_headers, section_headers, sizes) is Ok,
    ensures
        ({
            let plan = shifts(program_headers, section_headers, sizes)->Ok_0;
            let change = sizes[k] - section_headers[k].sh_size;
            &&& plan.program_headers.len() == program_headers.len()
            &&& plan.section_headers.len() == section_headers.len()
            &&& plan.program_headers[j].p_filesz == program_headers[j].p_filesz + change
            &&& plan.program_headers[j].p_memsz == program_headers[j].p_memsz + change
            &&& forall|i: int|
                0 <= i <= k ==> (#[trigger] plan.section_headers[i]).sh_offset
                    == section_headers[i].sh_offset
            &&& forall|i: int|
                k < i < section_headers.len() && (forall|m: int|
                    k < m <= i ==> (#[trigger] section_headers[m]).sh_addralign <= 1) ==> (
                #[trigger] plan.section_headers[i]).sh_offset == section_headers[i].sh_offset
                    + change
        }),
{
    let plan = shifts(program_headers, section_headers, sizes)->Ok_0;
    let len = section_headers.len();
    lemma_placed_prefix(program_headers, section_headers, sizes, (k + 1) as nat, len);
    lemma_placed_prefix(program_headers, section_headers, sizes, len, len);
    lemma_changed_section(program_headers, section_headers, sizes, k, j);
    lemma_sizes_stay_once_bound(
        program_headers,
        section_headers,
        sizes,
        (k + 1) as nat,
        len,
        j,
    );
    let after = placed(program_headers, section_headers, sizes, (k + 1) as nat)->Ok_0;
    assert forall|i: int| 0 <= i <= k implies (#[trigger] plan.section_headers[i]).sh_offset
        == section_headers[i].sh_offset by {
        assert(plan.section_headers.take(k + 1)[i] == plan.section_headers[i]);
        assert(after.sections[i].sh_offset == section_headers[i].sh_offset);
    }
    assert forall|i: int|
        k < i < len && (forall|m: int|
            k < m <= i ==> (#[trigger] section_headers[m]).sh_addralign <= 1) implies (
    #[trigger] plan.section_headers[i]).sh_offset == section_headers[i].sh_offset + sizes[k]
        - section_headers[k].sh_size by {
        lemma_moved_behind(program_headers, section_headers, sizes, k, i);
    }
}

/// Two ranges of bytes that meet make one range.
proof fn lemma_ranges_join(bytes: Seq<u8>, from: int, middle: int, to: int)
    requires
        0 <= from <= middle <= to <= bytes.len(),
    ensures
        bytes.subrange(from, middle) + bytes.subrange(middle, to) == bytes.subrange(from, to),
{
    assert(bytes.subrange(from, middle) + bytes.subrange(middle, to) =~= bytes.subrange(
        from,
        to,
    ));
}

/// A range of the file that holds nothing but zero bytes is as many zero
/// bytes.
proof fn lemma_zero_range(bytes: Seq<u8>, from: int, to: int)
    requires
        0 <= from <= to <= bytes.len(),
        all_zero(bytes, from, to),
    ensures
        zeros((to - from) as nat) == bytes.subrange(from, to),
{
    assert(zeros((to - from) as nat) =~= bytes.subrange(from, to));
}

/// Sections that are checked and kept as they are stand in the new image as
/// they stand in the input, where each is planned where it lies: the first
/// `n` of them, with what lies between them, are the bytes of the input from
/// `start` to the end of the last of them.
proof fn lemma_kept_sections_image(
    input: Seq<u8>,
    section_headers: Seq<SectionHeader>,
    edits: Seq<Edit>,
    start: u64,
    n: nat,
)
    requires
        1 <= n < section_headers.len(),
        edits.len() == section_headers.len() - 1,
        forall|i: int| 0 <= i < edits.len() ==> (#[trigger] edits[i]).new_size is None,
        sections_check(input, section_headers, start, n) is Ok,
        section_headers[n as int].end() <= input.len(),
    ensures
        sections_image(
            input,
            content_sections(section_headers),
            content_sections(section_headers),
            edits,
            start as int,
            n,
        ) == Ok::<Seq<u8>, TransformError>(
            input.subrange(start as int, section_headers[n as int].end()),
        ),
    decreases n,
{
    let sections = content_sections(section_headers);
    lemma_checked_sections(input, section_headers, start, n);
    let header = section_headers[n as int];
    assert(sections[n - 1] == header);
    assert(edits[n - 1].new_size is None);
    let written_up_to = end_before(section_headers, start, n as int);
    assert(written_up_to <= header.sh_offset <= header.end());
    assert(all_zero(input, written_up_to, header.sh_offset as int));
    let before: Seq<u8> = input.subrange(start as int, written_up_to);
    if n > 1 {
        lemma_kept_sections_image(input, section_headers, edits, start, (n - 1) as nat);
        assert(sections_image(input, sections, sections, edits, start as int, (n - 1) as nat)
            == Ok::<Seq<u8>, TransformError>(before));
    } else {
        assert(before =~= Seq::<u8>::empty());
        assert(sections_image(input, sections, sections, edits, start as int, 0) == Ok::<
            Seq<u8>,
            TransformError,
        >(before));
    }
    assert(start + before.len() == written_up_to);
    lemma_zero_range(input, written_up_to, header.sh_offset as int);
    lemma_ranges_join(input, start as int, written_up_to, header.sh_offset as int);
    lemma_ranges_join(input, start as int, header.sh_offset as int, header.end());
    assert(content_after(input, header, edits[n - 1]) == input.subrange(
        header.sh_offset as int,
        header.end(),
    ));
}

/// What a passed layout check says of the file: there are at least two
/// section headers, the program header table lies at or behind the end of the
/// file header, the sections behind it pass their check, and the section
/// header table lies at or behind the last section, within the file.
proof fn lemma_passed_check(
    input: Seq<u8>,
    header: Header,
    section_headers: Seq<SectionHeader>,
    ctx: Ctx,
)
    requires
        structure(input, header, section_headers, ctx) is Ok,
    ensures
        section_headers.len() >= 2,
        header_size_of(ctx) <= header.e_phoff,
        header.e_phoff + header.program_headers_size() <= u64::MAX,
        sections_check(
            input,
            section_headers,
            (header.e_phoff + header.program_headers_size()) as u64,
            (section_headers.len() - 1) as nat,
        ) is Ok,
        sections_check(
            input,
            section_headers,
            (header.e_phoff + header.program_headers_size()) as u64,
            (section_headers.len() - 1) as nat,
        )->Ok_0 <= header.e_shoff <= input.len(),
{
    assert(0 <= header.program_headers_size() <= 0xffff * 0xffff) by (nonlinear_arith)
        requires
            header.program_headers_size() == header.e_phentsize as int * header.e_phnum as int,
            0 <= header.e_phentsize <= 0xffff,
            0 <= header.e_phnum <= 0xffff,
    ;
}

/// Edits that all decline report no size, so none reports a wrong one, and
/// the sizes after them are the sizes of the input.
proof fn lemma_all_declined(sections: Seq<SectionHeader>, edits: Seq<Edit>)
    requires
        edits.len() == sections.len(),
        forall|i: int| 0 <= i < edits.len() ==> (#[trigger] edits[i]).new_size is None,
    ensures
        first_mismatch(edits) is None,
        sizes_after(sections, edits) == sizes_of(sections),
{
    assert(sizes_after(sections, edits) =~= sizes_of(sections));
    if exists|i: int| is_first_mismatch(edits, i) {
        let i = choose|i: int| is_first_mismatch(edits, i);
        assert(edits[i].new_size is None);
    }
}

/// The image of a planned layout that is the layout of the input, for a file
/// that passes the check and keeps every section: the program headers, the
/// bytes of the input between the two tables, and the section headers.
proof fn lemma_kept_planned_image(
    input: Seq<u8>,
    header: Header,
    section_headers: Seq<SectionHeader>,
    ctx: Ctx,
    edits: Seq<Edit>,
    plan: Plan,
)
    requires
        structure(input, header, section_headers, ctx) is Ok,
        edits.len() == content_sections(section_headers).len(),
        forall|i: int| 0 <= i < edits.len() ==> (#[trigger] edits[i]).new_size is None,
        header.e_shoff == section_headers.last().end(),
        header_size_of(ctx) == header.e_phoff,
        plan.section_headers == content_sections(section_headers),
        plan.section_headers_start == header.e_shoff,
        program_headers_image(plan.program_headers, ctx, plan.program_headers.len()) is Ok,
        program_headers_image(plan.program_headers, ctx, plan.program_headers.len())->Ok_0.len()
            == header.program_headers_size(),
        section_headers_image(section_headers, ctx, section_headers.len()) is Ok,
    ensures
        planned_image(input, section_headers, ctx, edits, plan) == Ok::<Seq<u8>, TransformError>(
            program_headers_image(plan.program_headers, ctx, plan.program_headers.len())->Ok_0
                + input.subrange(
                header.e_phoff + header.program_headers_size(),
                header.e_shoff as int,
            ) + section_headers_image(section_headers, ctx, section_headers.len())->Ok_0,
        ),
{
    lemma_passed_check(input, header, section_headers, ctx);
    let sections = content_sections(section_headers);
    let n = (section_headers.len() - 1) as nat;
    let start = (header.e_phoff + header.program_headers_size()) as u64;
    lemma_checked_sections(input, section_headers, start, n);
    lemma_kept_sections_image(input, section_headers, edits, start, n);
    assert(section_header_table(section_headers, plan.section_headers) =~= section_headers);
    let packed_program_headers = program_headers_image(
        plan.program_headers,
        ctx,
        plan.program_headers.len(),
    )->Ok_0;
    assert(header_size_of(ctx) + packed_program_headers.len() == start);
    let body = input.subrange(start as int, header.e_shoff as int);
    assert(sections_image(input, sections, plan.section_headers, edits, start as int, n) == Ok::<
        Seq<u8>,
        TransformError,
    >(body));
    assert(start + body.len() == header.e_shoff);
    assert(zeros(0) =~= Seq::<u8>::empty());
    let packed_section_headers = section_headers_image(
        section_headers,
        ctx,
        section_headers.len(),
    )->Ok_0;
    assert(packed_program_headers + body + zeros(0) + packed_section_headers
        =~= packed_program_headers + body + packed_section_headers);
}

/// A file that passes the layout check, whose sections are packed and whose
/// section header table follows the last section at once, comes out of a
/// relayout that changes no section as it went in: the new image is the file
/// header, the program headers, the bytes of the input between the two
/// tables, and the section headers, all as in the input.
///
/// For this the layout has to be one that can be planned, with the program
/// header table right behind the file header, and the records have to be such
/// that they can be packed, the program headers into as many bytes as the file
/// header states for their table. Nothing else keeps the image from being
/// written.
pub proof fn lemma_no_change_round_trip(
    input: Seq<u8>,
    header: Header,
    program_headers: Seq<ProgramHeader>,
    section_headers: Seq<SectionHeader>,
    ctx: Ctx,
    edits: Seq<Edit>,
)
    requires
        structure(input, header, section_headers, ctx) is Ok,
        edits.len() == content_sections(section_headers).len(),
        forall|i: int| 0 <= i < edits.len() ==> (#[trigger] edits[i]).new_size is None,
        packed(content_sections(section_headers)),
        header.e_shoff == section_headers.last().end(),
        shifts(
            program_headers,
            content_sections(section_headers),
            sizes_of(content_sections(section_headers)),
        ) is Ok,
        header.names_byte_order(),
        header_size_of(ctx) == header.e_phoff,
        program_headers_image(program_headers, ctx, program_headers.len()) is Ok,
        program_headers_image(program_headers, ctx, program_headers.len())->Ok_0.len()
            == header.program_headers_size(),
        section_headers_image(section_headers, ctx, section_headers.len()) is Ok,
    ensures
        transformed(input, header, program_headers, section_headers, ctx, edits) == Ok::<
            Seq<u8>,
            TransformError,
        >(
            header_bytes(header, ctx) + program_headers_image(
                program_headers,
                ctx,
                program_headers.len(),
            )->Ok_0 + input.subrange(
                header.e_phoff + header.program_headers_size(),
                header.e_shoff as int,
            ) + section_headers_image(section_headers, ctx, section_headers.len())->Ok_0,
        ),
{
    let sections = content_sections(section_headers);
    lemma_passed_check(input, header, section_headers, ctx);
    lemma_all_declined(sections, edits);
    let sizes = sizes_after(sections, edits);
    let plan = shifts(program_headers, sections, sizes)->Ok_0;
    lemma_no_change_keeps_a_packed_layout(program_headers, sections);
    assert(sections.last() == section_headers.last());
    assert(plan.section_headers_start == header.e_shoff);
    assert((Header { e_shoff: plan.section_headers_start, ..header }) == header);
    lemma_kept_planned_image(input, header, section_headers, ctx, edits, plan);
    let packed_program_headers = program_headers_image(
        program_headers,
        ctx,
        program_headers.len(),
    )->Ok_0;
    let body = input.subrange(
        header.e_phoff + header.program_headers_size(),
        header.e_shoff as int,
    );
    let packed_section_headers = section_headers_image(
        section_headers,
        ctx,
        section_headers.len(),
    )->Ok_0;
    assert(header_bytes(header, ctx) + (packed_program_headers + body + packed_section_headers)
        =~= header_bytes(header, ctx) + packed_program_headers + body + packed_section_headers);
}

/// The sections of a new image pass the layout check against the image as far
/// as it is written with them: each starts at or behind the end of the one
/// before it, behind nothing but zero bytes. `before` is what is written
/// before the sections, and each section has the size of its bytes.
proof fn lemma_written_sections_pass(
    before: Seq<u8>,
    input: Seq<u8>,
    sections: Seq<SectionHeader>,
    planned: Seq<SectionHeader>,
    edits: Seq<Edit>,
    table: Seq<SectionHeader>,
    n: nat,
)
    requires
        n <= sections.len(),
        planned.len() == sections.len(),
        edits.len() == sections.len(),
        table.len() == planned.len() + 1,
        forall|k: int| 0 <= k < planned.len() ==> #[trigger] table[k + 1] == planned[k],
        before.len() <= u64::MAX,
        sections_image(input, sections, planned, edits, before.len() as int, n) is Ok,
        forall|k: int|
            0 <= k < n ==> (#[trigger] planned[k]).sh_size == content_after(
                input,
                sections[k],
                edits[k],
            ).len() && planned[k].end() <= u64::MAX,
    ensures
        sections_check(
            before + sections_image(input, sections, planned, edits, before.len() as int, n)->Ok_0,
            table,
            before.len() as u64,
            n,
        ) == Ok::<u64, StructuralError>(
            (before.len() + sections_image(
                input,
                sections,
                planned,
                edits,
                before.len() as int,
                n,
            )->Ok_0.len()) as u64,
        ),
        before.len() + sections_image(
            input,
            sections,
            planned,
            edits,
            before.len() as int,
            n,
        )->Ok_0.len() <= u64::MAX,
    decreases n,
{
    let start = before.len() as int;
    let body = sections_image(input, sections, planned, edits, start, n)->Ok_0;
    if n == 0 {
        assert(before + body =~= before);
    } else {
        let earlier = sections_image(input, sections, planned, edits, start, (n - 1) as nat)->Ok_0;
        lemma_written_sections_pass(before, input, sections, planned, edits, table, (n - 1) as nat);
        let written_up_to = start + earlier.len();
        let header = planned[n - 1];
        assert(table[(n - 1) + 1] == header);
        let content = content_after(input, sections[n - 1], edits[n - 1]);
        let gap = zeros((header.sh_offset - written_up_to) as nat);
        assert(body == earlier + gap + content);
        assert((before + earlier).is_prefix_of(before + body)) by {
            assert((before + body).subrange(0, (before + earlier).len() as int) =~= before
                + earlier);
        }
        lemma_sections_check_of_longer(
            before + earlier,
            before + body,
            table,
            before.len() as u64,
            (n - 1) as nat,
        );
        assert forall|i: int| written_up_to <= i < header.sh_offset implies #[trigger] (before
            + body)[i] == 0 by {
            assert((before + body)[i] == gap[i - written_up_to]);
        }
        assert(all_zero(before + body, written_up_to, header.sh_offset as int));
        assert(header.sh_offset + header.sh_size == start + body.len());
        assert(region_check(
            before + body,
            written_up_to as u64,
            Region::Section { index: n as usize, name: header.sh_name },
            header.sh_offset,
            header.sh_size,
        ) == Ok::<u64, StructuralError>((start + body.len()) as u64));
    }
}

/// Every section that is written with the bytes that it has in the input lies
/// within the input.
proof fn lemma_kept_sections_lie_within(
    input: Seq<u8>,
    sections: Seq<SectionHeader>,
    planned: Seq<SectionHeader>,
    edits: Seq<Edit>,
    start: int,
    n: nat,
)
    requires
        sections_image(input, sections, planned, edits, start, n) is Ok,
    ensures
        forall|k: int|
            0 <= k < n && (#[trigger] edits[k]).new_size is None ==> sections[k].end()
                <= input.len(),
    decreases n,
{
    if n > 0 {
        lemma_kept_sections_lie_within(input, sections, planned, edits, start, (n - 1) as nat);
    }
}

/// Where no edit reports a size other than the number of its bytes, and every
/// section that keeps its bytes lies within the input, each section has the
/// size after its edit that its bytes in the new image have.
proof fn lemma_sizes_are_those_of_the_contents(
    input: Seq<u8>,
    sections: Seq<SectionHeader>,
    edits: Seq<Edit>,
)
    requires
        edits.len() == sections.len(),
        first_mismatch(edits) is None,
        forall|k: int|
            0 <= k < sections.len() && (#[trigger] edits[k]).new_size is None ==> sections[k].end()
                <= input.len(),
    ensures
        forall|k: int|
            0 <= k < sections.len() ==> (#[trigger] sizes_after(sections, edits)[k])
                == content_after(input, sections[k], edits[k]).len(),
{
    assert forall|k: int| 0 <= k < sections.len() implies (#[trigger] sizes_after(
        sections,
        edits,
    )[k]) == content_after(input, sections[k], edits[k]).len() by {
        if edits[k].new_size is Some {
            if is_mismatch(edits[k]) {
                lemma_some_mismatch(edits, k);
            }
        } else {
            assert(edits[k].new_size is None);
        }
    }
}

/// Where some edit reports a size other than the number of its bytes, there
/// is a first one.
proof fn lemma_some_mismatch(edits: Seq<Edit>, k: int)
    requires
        0 <= k < edits.len(),
        is_mismatch(edits[k]),
    ensures
        first_mismatch(edits) is Some,
    decreases k,
{
    if exists|i: int| 0 <= i < k && is_mismatch(#[trigger] edits[i]) {
        let i = choose|i: int| 0 <= i < k && is_mismatch(#[trigger] edits[i]);
        lemma_some_mismatch(edits, i);
    } else {
        assert(is_first_mismatch(edits, k));
    }
}

/// The new image of a file has the supported layout: it passes the layout
/// check with the file header and the section headers that it holds.
///
/// For this the first section header of the input has to be the empty one,
/// the records have to be packed into as many bytes as the file header states
/// for them, and the image must not be longer than 64 bits can address.
pub proof fn lemma_new_image_passes_the_check(
    input: Seq<u8>,
    header: Header,
    program_headers: Seq<ProgramHeader>,
    section_headers: Seq<SectionHeader>,
    ctx: Ctx,
    edits: Seq<Edit>,
)
    requires
        edits.len() == content_sections(section_headers).len(),
        section_headers.len() > 0,
        section_headers[0].sh_offset == 0 && section_headers[0].sh_size == 0,
        transformed(input, header, program_headers, section_headers, ctx, edits) is Ok,
        transformed(input, header, program_headers, section_headers, ctx, edits)->Ok_0.len()
            <= u64::MAX,
        ({
            let sections = content_sections(section_headers);
            let plan = shifts(program_headers, sections, sizes_after(sections, edits))->Ok_0;
            let table = section_header_table(section_headers, plan.section_headers);
            &&& header_bytes(Header { e_shoff: plan.section_headers_start, ..header }, ctx).len()
                == header_size_of(ctx)
            &&& program_headers_image(
                plan.program_headers,
                ctx,
                plan.program_headers.len(),
            )->Ok_0.len() == header.program_headers_size()
            &&& section_headers_image(table, ctx, table.len())->Ok_0.len()
                == header.section_headers_size()
        }),
    ensures
        ({
            let sections = content_sections(section_headers);
            let plan = shifts(program_headers, sections, sizes_after(sections, edits))->Ok_0;
            structure(
                transformed(input, header, program_headers, section_headers, ctx, edits)->Ok_0,
                Header { e_shoff: plan.section_headers_start, ..header },
                section_header_table(section_headers, plan.section_headers),
                ctx,
            ) is Ok
        }),
{
    let sections = content_sections(section_headers);
    let sizes = sizes_after(sections, edits);
    let plan = shifts(program_headers, sections, sizes)->Ok_0;
    let planned = plan.section_headers;
    let table = section_header_table(section_headers, planned);
    let new_header = Header { e_shoff: plan.section_headers_start, ..header };
    let image = transformed(input, header, program_headers, section_headers, ctx, edits)->Ok_0;
    let packed_header = header_bytes(new_header, ctx);
    let packed_program_headers = program_headers_image(
        plan.program_headers,
        ctx,
        plan.program_headers.len(),
    )->Ok_0;
    let packed_section_headers = section_headers_image(table, ctx, table.len())->Ok_0;
    let start = header_size_of(ctx) + packed_program_headers.len();
    let body = sections_image(input, sections, planned, edits, start, sections.len())->Ok_0;
    let written_up_to = start + body.len();
    let gap = zeros((plan.section_headers_start - written_up_to) as nat);
    assert(planned_image(input, section_headers, ctx, edits, plan) == Ok::<
        Seq<u8>,
        TransformError,
    >(packed_program_headers + body + gap + packed_section_headers));
    let before = packed_header + packed_program_headers;
    assert(image =~= before + body + gap + packed_section_headers);
    assert(before.len() == start);
    // The section header table stands behind what is written, so there are
    // sections.
    assert(sections.len() > 0);
    lemma_placed_sections(program_headers, sections, sizes, sections.len());
    assert(table.len() == planned.len() + 1);
    assert forall|k: int| 0 <= k < planned.len() implies #[trigger] table[k + 1] == planned[k] by {}
    // Each section has the size of its bytes.
    lemma_kept_sections_lie_within(input, sections, planned, edits, start, sections.len());
    lemma_sizes_are_those_of_the_contents(input, sections, edits);
    assert forall|k: int| 0 <= k < sections.len() implies (#[trigger] planned[k]).sh_size
        == content_after(input, sections[k], edits[k]).len() && planned[k].end() <= u64::MAX by {
        assert(planned[k].sh_size == sizes[k]);
    }
    lemma_written_sections_pass(before, input, sections, planned, edits, table, sections.len());
    assert((before + body).is_prefix_of(image)) by {
        assert(image.subrange(0, (before + body).len() as int) =~= before + body);
    }
    lemma_sections_check_of_longer(before + body, image, table, start as u64, sections.len());
    lemma_image_regions_pass(
        image,
        new_header,
        table,
        ctx,
        before + body,
        gap,
        packed_section_headers,
    );
}

/// The tables of a new image pass the layout check: the program header table
/// right behind the file header, and the section header table behind the
/// sections and the zero bytes that follow them, at the end of the image.
proof fn lemma_image_regions_pass(
    image: Seq<u8>,
    header: Header,
    table: Seq<SectionHeader>,
    ctx: Ctx,
    written: Seq<u8>,
    gap: Seq<u8>,
    packed_section_headers: Seq<u8>,
)
    requires
        image == written + gap + packed_section_headers,
        image.len() <= u64::MAX,
        forall|i: int| 0 <= i < gap.len() ==> gap[i] == 0,
        header_size_of(ctx) == header.e_phoff,
        header.e_phoff + header.program_headers_size() <= written.len(),
        table.len() >= 2,
        table[0].sh_offset == 0 && table[0].sh_size == 0,
        sections_check(
            image,
            table,
            (header.e_phoff + header.program_headers_size()) as u64,
            (table.len() - 1) as nat,
        ) == Ok::<u64, StructuralError>(written.len() as u64),
        header.e_shoff == written.len() + gap.len(),
        packed_section_headers.len() == header.section_headers_size(),
    ensures
        structure(image, header, table, ctx) is Ok,
{
    assert(0 <= header.program_headers_size() <= 0xffff * 0xffff) by (nonlinear_arith)
        requires
            header.program_headers_size() == header.e_phentsize as int * header.e_phnum as int,
            0 <= header.e_phentsize <= 0xffff,
            0 <= header.e_phnum <= 0xffff,
    ;
    assert(0 <= header.section_headers_size() <= 0xffff * 0xffff) by (nonlinear_arith)
        requires
            header.section_headers_size() == header.e_shentsize as int * header.e_shnum as int,
            0 <= header.e_shentsize <= 0xffff,
            0 <= header.e_shnum <= 0xffff,
    ;
    assert(region_check(
        image,
        header_size_of(ctx) as u64,
        Region::ProgramHeaders,
        header.e_phoff,
        header.program_headers_size() as u64,
    ) == Ok::<u64, StructuralError>((header.e_phoff + header.program_headers_size()) as u64));
    assert forall|i: int| written.len() <= i < header.e_shoff implies #[trigger] image[i] == 0 by {
        assert(image[i] == gap[i - written.len()]);
    }
    assert(region_check(
        image,
        written.len() as u64,
        Region::SectionHeaders,
        header.e_shoff,
        header.section_headers_size() as u64,
    ) == Ok::<u64, StructuralError>(image.len() as u64));
}

} // verus!
