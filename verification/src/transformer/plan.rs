//! The planning of a new layout, as mathematics.
//!
//! The sections are walked in the order of their headers. Each is placed at
//! the first offset behind the section before it that its alignment allows,
//! and each moves the program header that started with it in the input, or
//! ended with it, along.

use crate::elf::{ProgramHeader, SectionHeader};
use crate::transformer::{LayoutError, ProgramHeaderUpdate, SectionDimensions};
use vstd::prelude::*;

verus! {

/// One program header while the sections are walked.
pub struct Binding {
    /// Which of its ends have been bound to a section.
    pub update: ProgramHeaderUpdate,
    /// The program header as it stands now.
    pub header: ProgramHeader,
}

/// Where each program header lies in the file.
pub open spec fn dimensions_of(program_headers: Seq<ProgramHeader>) -> Seq<SectionDimensions> {
    Seq::new(
        program_headers.len(),
        |i: int|
            SectionDimensions {
                offset: program_headers[i].p_offset,
                size: program_headers[i].p_filesz,
            },
    )
}

/// No program header is bound yet, and every one is as in the input.
pub open spec fn initial_bindings(program_headers: Seq<ProgramHeader>) -> Seq<Binding> {
    Seq::new(
        program_headers.len(),
        |i: int|
            Binding {
                update: ProgramHeaderUpdate { start: false, end: false },
                header: program_headers[i],
            },
    )
}

/// `i` is the first of the ranges `originals` that starts at `offset`.
pub open spec fn is_first_start(originals: Seq<SectionDimensions>, offset: u64, i: int) -> bool {
    &&& 0 <= i < originals.len()
    &&& originals[i].offset == offset
    &&& forall|j: int| 0 <= j < i ==> (#[trigger] originals[j]).offset != offset
}

/// The first of the ranges `originals` that starts at `offset`.
pub open spec fn first_start(originals: Seq<SectionDimensions>, offset: u64) -> Option<int> {
    if exists|i: int| is_first_start(originals, offset, i) {
        Some(choose|i: int| is_first_start(originals, offset, i))
    } else {
        None
    }
}

/// `i` is the first of the ranges `originals` that ends at `end`.
pub open spec fn is_first_end(originals: Seq<SectionDimensions>, end: int, i: int) -> bool {
    &&& 0 <= i < originals.len()
    &&& originals[i].end() == end
    &&& forall|j: int| 0 <= j < i ==> (#[trigger] originals[j]).end() != end
}

/// The first of the ranges `originals` that ends at `end`.
pub open spec fn first_end(originals: Seq<SectionDimensions>, end: int) -> Option<int> {
    if exists|i: int| is_first_end(originals, end, i) {
        Some(choose|i: int| is_first_end(originals, end, i))
    } else {
        None
    }
}

/// A section that lay at `was` starts at `now`: the first program header that
/// started with it in the input, if there is one, starts at the new offset.
/// `originals` holds where the program headers lay in the input.
pub open spec fn observe_start(
    originals: Seq<SectionDimensions>,
    bindings: Seq<Binding>,
    was: SectionDimensions,
    now: SectionDimensions,
) -> Result<Seq<Binding>, LayoutError> {
    match first_start(originals, was.offset) {
        None => Ok(bindings),
        Some(i) => if bindings[i].update.start {
            Err(LayoutError::StartSeenTwice { program_header: i as usize })
        } else {
            Ok(
                bindings.update(
                    i,
                    Binding {
                        update: ProgramHeaderUpdate { start: true, ..bindings[i].update },
                        header: ProgramHeader { p_offset: now.offset, ..bindings[i].header },
                    },
                ),
            )
        },
    }
}

/// A section that lay at `was` ends with `now`: the first program header that
/// ended with it in the input, if there is one, ends at the new end. Its size
/// in the file is counted from where it starts now, and its size in memory
/// changes by as much as its size in the file.
pub open spec fn observe_end(
    originals: Seq<SectionDimensions>,
    bindings: Seq<Binding>,
    was: SectionDimensions,
    now: SectionDimensions,
) -> Result<Seq<Binding>, LayoutError> {
    match first_end(originals, was.end()) {
        None => Ok(bindings),
        Some(i) => {
            let header = bindings[i].header;
            let file_size = now.end() - header.p_offset;
            let change = file_size - header.p_filesz;
            let memory_size = header.p_memsz + change;
            if bindings[i].update.end {
                Err(LayoutError::EndSeenTwice { program_header: i as usize })
            } else if file_size < 0 {
                Err(LayoutError::NegativeFileSize { program_header: i as usize })
            } else if !(i64::MIN <= change <= i64::MAX) {
                Err(LayoutError::SizeChangeOverflow { program_header: i as usize })
            } else if !(0 <= memory_size <= u64::MAX) {
                Err(LayoutError::MemorySizeOverflow { program_header: i as usize })
            } else {
                Ok(
                    bindings.update(
                        i,
                        Binding {
                            update: ProgramHeaderUpdate { end: true, ..bindings[i].update },
                            header: ProgramHeader {
                                p_filesz: file_size as u64,
                                p_memsz: memory_size as u64,
                                ..header
                            },
                        },
                    ),
                )
            }
        },
    }
}

/// What one section does to the program headers: first to the one that
/// started with it, then to the one that ended with it.
pub open spec fn observe(
    originals: Seq<SectionDimensions>,
    bindings: Seq<Binding>,
    was: SectionDimensions,
    now: SectionDimensions,
) -> Result<Seq<Binding>, LayoutError> {
    match observe_start(originals, bindings, was, now) {
        Err(e) => Err(e),
        Ok(started) => observe_end(originals, started, was, now),
    }
}

/// `i` is the first program header with an end that no section was seen at.
pub open spec fn is_first_unbound(bindings: Seq<Binding>, i: int) -> bool {
    &&& 0 <= i < bindings.len()
    &&& !(bindings[i].update.start && bindings[i].update.end)
    &&& forall|j: int|
        0 <= j < i ==> (#[trigger] bindings[j]).update.start && bindings[j].update.end
}

/// The program headers after the last section: every one must be bound at
/// both ends.
pub open spec fn finished(bindings: Seq<Binding>) -> Result<Seq<ProgramHeader>, LayoutError> {
    if exists|i: int| is_first_unbound(bindings, i) {
        let i = choose|i: int| is_first_unbound(bindings, i);
        if !bindings[i].update.start {
            Err(LayoutError::StartNotSeen { program_header: i as usize })
        } else {
            Err(LayoutError::EndNotSeen { program_header: i as usize })
        }
    } else {
        Ok(Seq::new(bindings.len(), |i: int| bindings[i].header))
    }
}

/// The smallest multiple of `align` that is at or after `cursor`; `cursor`
/// itself where `align` is 0 or 1.
#[verifier::opaque]
pub open spec fn aligned_at_or_after(cursor: int, align: int) -> int {
    if align <= 1 || cursor % align == 0 {
        cursor
    } else {
        cursor + align - cursor % align
    }
}

/// A `ComputeShiftsResult` as a mathematical value.
pub struct Plan {
    pub program_headers: Seq<ProgramHeader>,
    pub section_headers: Seq<SectionHeader>,
    pub section_headers_start: u64,
}

/// How far the planning has come after some of the sections.
pub struct Progress {
    /// The program headers, as the sections so far leave them.
    pub bindings: Seq<Binding>,
    /// The new headers of the sections so far.
    pub sections: Seq<SectionHeader>,
    /// The offset just past the last section so far.
    pub cursor: u64,
}

/// Places the section `header`, the one with the number `index`, with its new
/// `size` at the first aligned offset at or after the cursor, and binds the
/// program headers that start or end with it.
pub open spec fn place(
    originals: Seq<SectionDimensions>,
    progress: Progress,
    index: int,
    header: SectionHeader,
    size: u64,
) -> Result<Progress, LayoutError> {
    let offset = aligned_at_or_after(progress.cursor as int, header.sh_addralign as int);
    if offset + size > u64::MAX {
        Err(LayoutError::OffsetOverflow { section: index as usize })
    } else {
        match observe(
            originals,
            progress.bindings,
            SectionDimensions { offset: header.sh_offset, size: header.sh_size },
            SectionDimensions { offset: offset as u64, size },
        ) {
            Err(e) => Err(e),
            Ok(bindings) => Ok(
                Progress {
                    bindings,
                    sections: progress.sections.push(
                        SectionHeader { sh_offset: offset as u64, sh_size: size, ..header },
                    ),
                    cursor: (offset + size) as u64,
                },
            ),
        }
    }
}

/// The planning after the first `n` sections. The cursor starts at the offset
/// of the first section.
pub open spec fn placed(
    program_headers: Seq<ProgramHeader>,
    section_headers: Seq<SectionHeader>,
    sizes: Seq<u64>,
    n: nat,
) -> Result<Progress, LayoutError>
    decreases n,
{
    if n == 0 {
        Ok(
            Progress {
                bindings: initial_bindings(program_headers),
                sections: Seq::empty(),
                cursor: section_headers[0].sh_offset,
            },
        )
    } else {
        match placed(program_headers, section_headers, sizes, (n - 1) as nat) {
            Err(e) => Err(e),
            Ok(progress) => place(
                dimensions_of(program_headers),
                progress,
                n - 1,
                section_headers[n - 1],
                sizes[n - 1],
            ),
        }
    }
}

/// The new layout of the sections `section_headers`, where section `i` gets
/// the size `sizes[i]`, and of the program headers that are bound to them.
/// Without sections the plan is empty.
pub open spec fn shifts(
    program_headers: Seq<ProgramHeader>,
    section_headers: Seq<SectionHeader>,
    sizes: Seq<u64>,
) -> Result<Plan, LayoutError> {
    if section_headers.len() == 0 {
        Ok(
            Plan {
                program_headers: Seq::empty(),
                section_headers: Seq::empty(),
                section_headers_start: 0,
            },
        )
    } else {
        match placed(program_headers, section_headers, sizes, section_headers.len()) {
            Err(e) => Err(e),
            Ok(progress) => match finished(progress.bindings) {
                Err(e) => Err(e),
                Ok(headers) => Ok(
                    Plan {
                        program_headers: headers,
                        section_headers: progress.sections,
                        section_headers_start: progress.cursor,
                    },
                ),
            },
        }
    }
}

/// Once the planning has failed it stays failed.
pub proof fn lemma_failure_stays(
    program_headers: Seq<ProgramHeader>,
    section_headers: Seq<SectionHeader>,
    sizes: Seq<u64>,
    n: nat,
    m: nat,
)
    requires
        n <= m,
        placed(program_headers, section_headers, sizes, n) is Err,
    ensures
        placed(program_headers, section_headers, sizes, m) == placed(
            program_headers,
            section_headers,
            sizes,
            n,
        ),
    decreases m,
{
    if n < m {
        lemma_failure_stays(program_headers, section_headers, sizes, n, (m - 1) as nat);
    }
}

} // verus!
