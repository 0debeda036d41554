//! What one step of the planning does, and what stays as it is over many.
//!
//! These are the lemmas that the laws of the planned layout are proved from.

use crate::elf::{ProgramHeader, SectionHeader};
use crate::transformer::{
    aligned_at_or_after, dimensions_of, first_end, first_start, is_first_end, is_first_start,
    observe, observe_start, placed, Binding, SectionDimensions,
};
use vstd::prelude::*;

verus! {

/// The aligned offset is the smallest multiple of the alignment that is at or
/// after the cursor, so less than one alignment lies between the two; with an
/// alignment of 0 or 1 it is the cursor itself.
pub proof fn lemma_aligned_is_smallest(cursor: int, align: int)
    requires
        0 <= cursor,
    ensures
        align <= 1 ==> aligned_at_or_after(cursor, align) == cursor,
        align > 1 ==> aligned_at_or_after(cursor, align) % align == 0,
        align > 1 ==> aligned_at_or_after(cursor, align) < cursor + align,
        cursor <= aligned_at_or_after(cursor, align),
        forall|m: int|
            align > 1 && cursor <= m && #[trigger] (m % align) == 0 ==> aligned_at_or_after(
                cursor,
                align,
            ) <= m,
{
    reveal(aligned_at_or_after);
    if align > 1 {
        let r = cursor % align;
        let a = aligned_at_or_after(cursor, align);
        assert(0 <= r < align);
        assert(cursor == align * (cursor / align) + r) by {
            vstd::arithmetic::div_mod::lemma_fundamental_div_mod(cursor, align);
        }
        if r != 0 {
            assert(a == align * (cursor / align + 1)) by (nonlinear_arith)
                requires
                    a == cursor + align - r,
                    cursor == align * (cursor / align) + r,
            ;
            assert(a % align == 0) by {
                vstd::arithmetic::div_mod::lemma_mod_multiples_basic(cursor / align + 1, align);
                assert(align * (cursor / align + 1) == (cursor / align + 1) * align)
                    by (nonlinear_arith);
            }
        }
        assert forall|m: int| cursor <= m && #[trigger] (m % align) == 0 implies a <= m by {
            vstd::arithmetic::div_mod::lemma_fundamental_div_mod(m, align);
            let q = m / align;
            let c = cursor / align;
            assert(m == align * q);
            if r != 0 {
                // align * c + r <= align * q with 0 < r < align gives c < q.
                assert(c < q) by (nonlinear_arith)
                    requires
                        align * c + r <= align * q,
                        0 < r,
                        align > 1,
                ;
                assert(align * (c + 1) <= align * q) by (nonlinear_arith)
                    requires
                        c + 1 <= q,
                        align > 1,
                ;
            }
        }
    }
}

/// What `first_start` returns is the first range that starts at the offset,
/// and it returns none only where no range starts there.
pub proof fn lemma_first_start(originals: Seq<SectionDimensions>, offset: u64)
    ensures
        match first_start(originals, offset) {
            Some(i) => is_first_start(originals, offset, i),
            None => forall|j: int|
                0 <= j < originals.len() ==> (#[trigger] originals[j]).offset != offset,
        },
{
    if first_start(originals, offset) is None {
        assert forall|j: int| 0 <= j < originals.len() implies (#[trigger] originals[j]).offset
            != offset by {
            if originals[j].offset == offset {
                lemma_some_start(originals, offset, j);
            }
        }
    }
}

/// Where some range starts at `offset`, there is a first one.
pub proof fn lemma_some_start(originals: Seq<SectionDimensions>, offset: u64, j: int)
    requires
        0 <= j < originals.len(),
        originals[j].offset == offset,
    ensures
        first_start(originals, offset) is Some,
    decreases j,
{
    if exists|i: int| 0 <= i < j && (#[trigger] originals[i]).offset == offset {
        let i = choose|i: int| 0 <= i < j && (#[trigger] originals[i]).offset == offset;
        lemma_some_start(originals, offset, i);
    } else {
        assert(is_first_start(originals, offset, j));
    }
}

/// What `first_end` returns is the first range that ends at `end`, and it
/// returns none only where no range ends there.
pub proof fn lemma_first_end(originals: Seq<SectionDimensions>, end: int)
    ensures
        match first_end(originals, end) {
            Some(i) => is_first_end(originals, end, i),
            None => forall|j: int| 0 <= j < originals.len() ==> (#[trigger] originals[j]).end() != end,
        },
{
    if first_end(originals, end) is None {
        assert forall|j: int| 0 <= j < originals.len() implies (#[trigger] originals[j]).end()
            != end by {
            if originals[j].end() == end {
                lemma_some_end(originals, end, j);
            }
        }
    }
}

/// Where some range ends at `end`, there is a first one.
pub proof fn lemma_some_end(originals: Seq<SectionDimensions>, end: int, j: int)
    requires
        0 <= j < originals.len(),
        originals[j].end() == end,
    ensures
        first_end(originals, end) is Some,
    decreases j,
{
    if exists|i: int| 0 <= i < j && (#[trigger] originals[i]).end() == end {
        let i = choose|i: int| 0 <= i < j && (#[trigger] originals[i]).end() == end;
        lemma_some_end(originals, end, i);
    } else {
        assert(is_first_end(originals, end, j));
    }
}

/// Binding a section keeps the number of the program headers, clears no flag,
/// and changes of a program header only its offset and its two sizes.
pub proof fn lemma_observe_keeps(
    originals: Seq<SectionDimensions>,
    bindings: Seq<Binding>,
    was: SectionDimensions,
    now: SectionDimensions,
)
    requires
        originals.len() == bindings.len(),
        observe(originals, bindings, was, now) is Ok,
    ensures
        ({
            let after = observe(originals, bindings, was, now)->Ok_0;
            &&& after.len() == bindings.len()
            &&& forall|j: int|
                0 <= j < bindings.len() ==> {
                    &&& bindings[j].update.start ==> (#[trigger] after[j]).update.start
                    &&& bindings[j].update.end ==> after[j].update.end
                    &&& after[j].header == ProgramHeader {
                        p_offset: after[j].header.p_offset,
                        p_filesz: after[j].header.p_filesz,
                        p_memsz: after[j].header.p_memsz,
                        ..bindings[j].header
                    }
                }
        }),
{
    lemma_first_start(originals, was.offset);
    lemma_first_end(originals, was.end());
}

/// What one section does to program header `j`: where the section started
/// with it in the input, `j` starts with the section now; where the section
/// ended with it, `j` ends with the section now, and its size in memory
/// changes as its size in the file. Nothing else of `j` changes.
pub proof fn lemma_observed(
    originals: Seq<SectionDimensions>,
    bindings: Seq<Binding>,
    was: SectionDimensions,
    now: SectionDimensions,
    j: int,
)
    requires
        originals.len() == bindings.len(),
        0 <= j < bindings.len(),
        now.end() <= u64::MAX,
        observe(originals, bindings, was, now) is Ok,
    ensures
        ({
            let after = observe(originals, bindings, was, now)->Ok_0;
            let starts = first_start(originals, was.offset) == Some(j);
            let ends = first_end(originals, was.end()) == Some(j);
            &&& after.len() == bindings.len()
            &&& starts ==> !bindings[j].update.start && after[j].update.start
                && after[j].header.p_offset == now.offset
            &&& !starts ==> after[j].update.start == bindings[j].update.start
                && after[j].header.p_offset == bindings[j].header.p_offset
            &&& ends ==> !bindings[j].update.end && after[j].update.end
                && after[j].header.p_filesz == now.end() - after[j].header.p_offset
                && after[j].header.p_memsz == bindings[j].header.p_memsz
                + after[j].header.p_filesz - bindings[j].header.p_filesz
            &&& !ends ==> after[j].update.end == bindings[j].update.end
                && after[j].header.p_filesz == bindings[j].header.p_filesz
                && after[j].header.p_memsz == bindings[j].header.p_memsz
        }),
{
    lemma_first_start(originals, was.offset);
    lemma_first_end(originals, was.end());
    let started = observe_start(originals, bindings, was, now)->Ok_0;
    assert(started.len() == bindings.len());
}

/// A section that stays where it is leaves the program headers as they are,
/// as long as each of them still lies where it lay in the input.
pub proof fn lemma_observe_in_place(
    originals: Seq<SectionDimensions>,
    bindings: Seq<Binding>,
    was: SectionDimensions,
)
    requires
        originals.len() == bindings.len(),
        forall|j: int|
            0 <= j < bindings.len() ==> (#[trigger] bindings[j]).header.p_offset
                == originals[j].offset && bindings[j].header.p_filesz == originals[j].size,
        observe(originals, bindings, was, was) is Ok,
    ensures
        ({
            let after = observe(originals, bindings, was, was)->Ok_0;
            &&& after.len() == bindings.len()
            &&& forall|j: int|
                0 <= j < bindings.len() ==> (#[trigger] after[j]).header == bindings[j].header
        }),
{
    lemma_first_start(originals, was.offset);
    lemma_first_end(originals, was.end());
    let started = observe_start(originals, bindings, was, was)->Ok_0;
    assert(started.len() == bindings.len());
    assert forall|j: int| 0 <= j < bindings.len() implies (#[trigger] started[j]).header
        == bindings[j].header by {}
}

/// Where the cursor stands before section `k` is placed: at the offset of the
/// first section in the input, or at the end of the section before, in the
/// new layout.
pub open spec fn cursor_before(
    section_headers: Seq<SectionHeader>,
    planned: Seq<SectionHeader>,
    k: int,
) -> int {
    if k == 0 {
        section_headers[0].sh_offset as int
    } else {
        planned[k - 1].end()
    }
}

/// What the planning holds after the first `n` sections: the new header of
/// each of them, and the cursor.
pub proof fn lemma_placed_sections(
    program_headers: Seq<ProgramHeader>,
    section_headers: Seq<SectionHeader>,
    sizes: Seq<u64>,
    n: nat,
)
    requires
        n <= section_headers.len(),
        sizes.len() == section_headers.len(),
        placed(program_headers, section_headers, sizes, n) is Ok,
    ensures
        ({
            let progress = placed(program_headers, section_headers, sizes, n)->Ok_0;
            &&& progress.sections.len() == n
            &&& progress.bindings.len() == program_headers.len()
            &&& progress.cursor == cursor_before(section_headers, progress.sections, n as int)
            &&& forall|k: int|
                0 <= k < n ==> #[trigger] progress.sections[k] == SectionHeader {
                    sh_offset: aligned_at_or_after(
                        cursor_before(section_headers, progress.sections, k),
                        section_headers[k].sh_addralign as int,
                    ) as u64,
                    sh_size: sizes[k],
                    ..section_headers[k]
                }
            &&& forall|k: int|
                0 <= k < n ==> cursor_before(section_headers, progress.sections, k)
                    <= aligned_at_or_after(
                    cursor_before(section_headers, progress.sections, k),
                    (#[trigger] section_headers[k]).sh_addralign as int,
                ) <= u64::MAX - sizes[k]
        }),
    decreases n,
{
    let progress = placed(program_headers, section_headers, sizes, n)->Ok_0;
    if n > 0 {
        let before = placed(program_headers, section_headers, sizes, (n - 1) as nat)->Ok_0;
        lemma_placed_sections(program_headers, section_headers, sizes, (n - 1) as nat);
        let header = section_headers[n - 1];
        let offset = aligned_at_or_after(before.cursor as int, header.sh_addralign as int);
        lemma_aligned_is_smallest(before.cursor as int, header.sh_addralign as int);
        lemma_observe_keeps(
            dimensions_of(program_headers),
            before.bindings,
            SectionDimensions { offset: header.sh_offset, size: header.sh_size },
            SectionDimensions { offset: offset as u64, size: sizes[n - 1] },
        );
        assert(progress.sections == before.sections.push(
            SectionHeader { sh_offset: offset as u64, sh_size: sizes[n - 1], ..header },
        ));
        assert forall|k: int| 0 <= k < n implies cursor_before(
            section_headers,
            progress.sections,
            k,
        ) == cursor_before(section_headers, before.sections, k) by {}
    }
}

/// The planning of the first `m` sections is the start of the planning of
/// the first `n`.
pub proof fn lemma_placed_prefix(
    program_headers: Seq<ProgramHeader>,
    section_headers: Seq<SectionHeader>,
    sizes: Seq<u64>,
    m: nat,
    n: nat,
)
    requires
        m <= n,
        placed(program_headers, section_headers, sizes, n) is Ok,
    ensures
        placed(program_headers, section_headers, sizes, m) is Ok,
        placed(program_headers, section_headers, sizes, m)->Ok_0.sections.len() == m,
        placed(program_headers, section_headers, sizes, m)->Ok_0.sections == placed(
            program_headers,
            section_headers,
            sizes,
            n,
        )->Ok_0.sections.take(m as int),
    decreases n,
{
    let at_n = placed(program_headers, section_headers, sizes, n)->Ok_0;
    if m < n {
        lemma_placed_prefix(program_headers, section_headers, sizes, m, (n - 1) as nat);
        lemma_placed_prefix(program_headers, section_headers, sizes, (n - 1) as nat, (n - 1) as nat);
        let before = placed(program_headers, section_headers, sizes, (n - 1) as nat)->Ok_0;
        assert(at_n.sections.take(m as int) =~= before.sections.take(m as int));
    } else {
        if n > 0 {
            lemma_placed_prefix(
                program_headers,
                section_headers,
                sizes,
                (n - 1) as nat,
                (n - 1) as nat,
            );
        }
        assert(at_n.sections.take(n as int) =~= at_n.sections);
    }
}

/// After any number of sections a program header differs from the one in the
/// input at most in its offset and its two sizes.
pub proof fn lemma_placed_headers(
    program_headers: Seq<ProgramHeader>,
    section_headers: Seq<SectionHeader>,
    sizes: Seq<u64>,
    n: nat,
)
    requires
        placed(program_headers, section_headers, sizes, n) is Ok,
    ensures
        ({
            let progress = placed(program_headers, section_headers, sizes, n)->Ok_0;
            &&& progress.bindings.len() == program_headers.len()
            &&& forall|j: int|
                0 <= j < program_headers.len() ==> (#[trigger] progress.bindings[j]).header
                    == ProgramHeader {
                    p_offset: progress.bindings[j].header.p_offset,
                    p_filesz: progress.bindings[j].header.p_filesz,
                    p_memsz: progress.bindings[j].header.p_memsz,
                    ..program_headers[j]
                }
        }),
    decreases n,
{
    if n > 0 {
        let before = placed(program_headers, section_headers, sizes, (n - 1) as nat)->Ok_0;
        lemma_placed_headers(program_headers, section_headers, sizes, (n - 1) as nat);
        let header = section_headers[n - 1];
        let offset = aligned_at_or_after(before.cursor as int, header.sh_addralign as int);
        lemma_observe_keeps(
            dimensions_of(program_headers),
            before.bindings,
            SectionDimensions { offset: header.sh_offset, size: header.sh_size },
            SectionDimensions { offset: offset as u64, size: sizes[n - 1] },
        );
    }
}

/// What the section with the number `n` does to program header `j`, in the
/// planning.
pub proof fn lemma_placed_step(
    program_headers: Seq<ProgramHeader>,
    section_headers: Seq<SectionHeader>,
    sizes: Seq<u64>,
    n: nat,
    j: int,
)
    requires
        0 <= j < program_headers.len(),
        n < section_headers.len(),
        sizes.len() == section_headers.len(),
        placed(program_headers, section_headers, sizes, n + 1) is Ok,
    ensures
        ({
            let originals = dimensions_of(program_headers);
            let before = placed(program_headers, section_headers, sizes, n)->Ok_0.bindings;
            let at = placed(program_headers, section_headers, sizes, n + 1)->Ok_0;
            let after = at.bindings;
            let planned = at.sections[n as int];
            let starts = first_start(originals, section_headers[n as int].sh_offset) == Some(j);
            let ends = first_end(originals, section_headers[n as int].end()) == Some(j);
            &&& placed(program_headers, section_headers, sizes, n) is Ok
            &&& before.len() == program_headers.len()
            &&& after.len() == program_headers.len()
            &&& at.sections.len() == n + 1
            &&& starts ==> !before[j].update.start && after[j].update.start
                && after[j].header.p_offset == planned.sh_offset
            &&& !starts ==> after[j].update.start == before[j].update.start
                && after[j].header.p_offset == before[j].header.p_offset
            &&& ends ==> !before[j].update.end && after[j].update.end && after[j].header.p_filesz
                == planned.end() - after[j].header.p_offset && after[j].header.p_memsz
                == before[j].header.p_memsz + after[j].header.p_filesz - before[j].header.p_filesz
            &&& !ends ==> after[j].update.end == before[j].update.end && after[j].header.p_filesz
                == before[j].header.p_filesz && after[j].header.p_memsz
                == before[j].header.p_memsz
        }),
{
    let before = placed(program_headers, section_headers, sizes, n)->Ok_0;
    lemma_placed_sections(program_headers, section_headers, sizes, n);
    lemma_placed_sections(program_headers, section_headers, sizes, n + 1);
    let header = section_headers[n as int];
    let offset = aligned_at_or_after(before.cursor as int, header.sh_addralign as int);
    lemma_observed(
        dimensions_of(program_headers),
        before.bindings,
        SectionDimensions { offset: header.sh_offset, size: header.sh_size },
        SectionDimensions { offset: offset as u64, size: sizes[n as int] },
        j,
    );
}

/// The planning of the first `n` sections looks at the sizes of those
/// sections only.
pub proof fn lemma_placed_by_sizes(
    program_headers: Seq<ProgramHeader>,
    section_headers: Seq<SectionHeader>,
    one: Seq<u64>,
    other: Seq<u64>,
    n: nat,
)
    requires
        forall|i: int| 0 <= i < n ==> one[i] == other[i],
    ensures
        placed(program_headers, section_headers, one, n) == placed(
            program_headers,
            section_headers,
            other,
            n,
        ),
    decreases n,
{
    if n > 0 {
        lemma_placed_by_sizes(program_headers, section_headers, one, other, (n - 1) as nat);
    }
}

/// A flag that is set after `n` sections is still set after `m`.
pub proof fn lemma_flags_stay(
    program_headers: Seq<ProgramHeader>,
    section_headers: Seq<SectionHeader>,
    sizes: Seq<u64>,
    n: nat,
    m: nat,
    j: int,
)
    requires
        n <= m,
        0 <= j < program_headers.len(),
        placed(program_headers, section_headers, sizes, m) is Ok,
    ensures
        placed(program_headers, section_headers, sizes, n) is Ok,
        placed(program_headers, section_headers, sizes, n)->Ok_0.bindings.len()
            == program_headers.len(),
        placed(program_headers, section_headers, sizes, m)->Ok_0.bindings.len()
            == program_headers.len(),
        placed(program_headers, section_headers, sizes, n)->Ok_0.bindings[j].update.start
            ==> placed(program_headers, section_headers, sizes, m)->Ok_0.bindings[j].update.start,
        placed(program_headers, section_headers, sizes, n)->Ok_0.bindings[j].update.end ==> placed(
            program_headers,
            section_headers,
            sizes,
            m,
        )->Ok_0.bindings[j].update.end,
    decreases m,
{
    lemma_placed_headers(program_headers, section_headers, sizes, m);
    if n < m {
        lemma_flags_stay(program_headers, section_headers, sizes, n, (m - 1) as nat, j);
        lemma_placed_headers(program_headers, section_headers, sizes, (m - 1) as nat);
        let before = placed(program_headers, section_headers, sizes, (m - 1) as nat)->Ok_0;
        let header = section_headers[m - 1];
        let offset = aligned_at_or_after(before.cursor as int, header.sh_addralign as int);
        lemma_observe_keeps(
            dimensions_of(program_headers),
            before.bindings,
            SectionDimensions { offset: header.sh_offset, size: header.sh_size },
            SectionDimensions { offset: offset as u64, size: sizes[m - 1] },
        );
    }
}

/// As long as no section has ended program header `j`, its two sizes are
/// those of the input.
pub proof fn lemma_sizes_until_bound(
    program_headers: Seq<ProgramHeader>,
    section_headers: Seq<SectionHeader>,
    sizes: Seq<u64>,
    n: nat,
    j: int,
)
    requires
        0 <= j < program_headers.len(),
        n <= section_headers.len(),
        sizes.len() == section_headers.len(),
        placed(program_headers, section_headers, sizes, n) is Ok,
        placed(program_headers, section_headers, sizes, n)->Ok_0.bindings.len()
            == program_headers.len(),
        !placed(program_headers, section_headers, sizes, n)->Ok_0.bindings[j].update.end,
    ensures
        placed(program_headers, section_headers, sizes, n)->Ok_0.bindings[j].header.p_filesz
            == program_headers[j].p_filesz,
        placed(program_headers, section_headers, sizes, n)->Ok_0.bindings[j].header.p_memsz
            == program_headers[j].p_memsz,
    decreases n,
{
    if n > 0 {
        lemma_placed_step(program_headers, section_headers, sizes, (n - 1) as nat, j);
        lemma_sizes_until_bound(program_headers, section_headers, sizes, (n - 1) as nat, j);
    }
}

/// Once a section has ended program header `j`, the two sizes of `j` stay as
/// they are.
pub proof fn lemma_sizes_stay_once_bound(
    program_headers: Seq<ProgramHeader>,
    section_headers: Seq<SectionHeader>,
    sizes: Seq<u64>,
    n: nat,
    m: nat,
    j: int,
)
    requires
        n <= m,
        0 <= j < program_headers.len(),
        placed(program_headers, section_headers, sizes, m) is Ok,
        placed(program_headers, section_headers, sizes, n) is Ok,
        placed(program_headers, section_headers, sizes, n)->Ok_0.bindings.len()
            == program_headers.len(),
        placed(program_headers, section_headers, sizes, n)->Ok_0.bindings[j].update.end,
    ensures
        placed(program_headers, section_headers, sizes, m)->Ok_0.bindings.len()
            == program_headers.len(),
        placed(program_headers, section_headers, sizes, m)->Ok_0.bindings[j].update.end,
        placed(program_headers, section_headers, sizes, m)->Ok_0.bindings[j].header.p_filesz
            == placed(program_headers, section_headers, sizes, n)->Ok_0.bindings[j].header.p_filesz,
        placed(program_headers, section_headers, sizes, m)->Ok_0.bindings[j].header.p_memsz
            == placed(program_headers, section_headers, sizes, n)->Ok_0.bindings[j].header.p_memsz,
    decreases m,
{
    if n < m {
        lemma_placed_prefix(program_headers, section_headers, sizes, (m - 1) as nat, m);
        lemma_sizes_stay_once_bound(
            program_headers,
            section_headers,
            sizes,
            n,
            (m - 1) as nat,
            j,
        );
        let originals = dimensions_of(program_headers);
        let before = placed(program_headers, section_headers, sizes, (m - 1) as nat)->Ok_0;
        let header = section_headers[m - 1];
        let was = SectionDimensions { offset: header.sh_offset, size: header.sh_size };
        let now = SectionDimensions {
            offset: aligned_at_or_after(before.cursor as int, header.sh_addralign as int) as u64,
            size: sizes[m - 1],
        };
        lemma_first_start(originals, was.offset);
        lemma_first_end(originals, was.end());
        let started = observe_start(originals, before.bindings, was, now)->Ok_0;
        assert(started[j].update.end);
        assert(started[j].header.p_filesz == before.bindings[j].header.p_filesz);
        assert(started[j].header.p_memsz == before.bindings[j].header.p_memsz);
    }
}

/// Once a section has started program header `j`, the offset of `j` stays as
/// it is.
pub proof fn lemma_offset_stays_once_bound(
    program_headers: Seq<ProgramHeader>,
    section_headers: Seq<SectionHeader>,
    sizes: Seq<u64>,
    n: nat,
    m: nat,
    j: int,
)
    requires
        n <= m <= section_headers.len(),
        0 <= j < program_headers.len(),
        sizes.len() == section_headers.len(),
        placed(program_headers, section_headers, sizes, m) is Ok,
        placed(program_headers, section_headers, sizes, n) is Ok,
        placed(program_headers, section_headers, sizes, n)->Ok_0.bindings.len()
            == program_headers.len(),
        placed(program_headers, section_headers, sizes, n)->Ok_0.bindings[j].update.start,
    ensures
        placed(program_headers, section_headers, sizes, m)->Ok_0.bindings.len()
            == program_headers.len(),
        placed(program_headers, section_headers, sizes, m)->Ok_0.bindings[j].update.start,
        placed(program_headers, section_headers, sizes, m)->Ok_0.bindings[j].header.p_offset
            == placed(program_headers, section_headers, sizes, n)->Ok_0.bindings[j].header.p_offset,
    decreases m,
{
    if n < m {
        lemma_placed_step(program_headers, section_headers, sizes, (m - 1) as nat, j);
        lemma_offset_stays_once_bound(
            program_headers,
            section_headers,
            sizes,
            n,
            (m - 1) as nat,
            j,
        );
    }
}

} // verus!
