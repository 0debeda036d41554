//! The new image of a file, as mathematics.
//!
//! The image holds the file header, the program headers, every section at its
//! planned offset with zero bytes before it, and the section headers.

use crate::codec::{header_bytes, header_size_of, program_header_bytes, section_header_bytes};
use crate::elf::{Ctx, Header, ProgramHeader, SectionHeader};
use crate::transformer::plan::{shifts, Plan};
use crate::transformer::{SectionEdit, TransformError};
use vstd::prelude::*;

verus! {

/// `n` zero bytes.
pub open spec fn zeros(n: nat) -> Seq<u8> {
    Seq::new(n, |i: int| 0u8)
}

/// A `SectionEdit` as a mathematical value.
pub struct Edit {
    pub new_size: Option<u64>,
    pub content: Seq<u8>,
}

/// The edits as mathematical values.
pub open spec fn edits_of(edits: Seq<SectionEdit>) -> Seq<Edit> {
    Seq::new(edits.len(), |i: int| edits[i]@)
}

/// The sections that are laid out: all but the first, the empty one.
pub open spec fn content_sections(section_headers: Seq<SectionHeader>) -> Seq<SectionHeader> {
    if section_headers.len() == 0 {
        section_headers
    } else {
        section_headers.skip(1)
    }
}

/// The edit reports a size and holds another number of bytes.
pub open spec fn is_mismatch(edit: Edit) -> bool {
    edit.new_size matches Some(reported) && reported != edit.content.len()
}

/// `i` is the first edit that reports a size and holds another number of
/// bytes.
pub open spec fn is_first_mismatch(edits: Seq<Edit>, i: int) -> bool {
    &&& 0 <= i < edits.len()
    &&& is_mismatch(edits[i])
    &&& forall|j: int| 0 <= j < i ==> !is_mismatch(#[trigger] edits[j])
}

/// The first edit that reports a size and holds another number of bytes.
pub open spec fn first_mismatch(edits: Seq<Edit>) -> Option<int> {
    if exists|i: int| is_first_mismatch(edits, i) {
        Some(choose|i: int| is_first_mismatch(edits, i))
    } else {
        None
    }
}

/// The size of each section after its edit: the size that the edit reports,
/// or the old size where it declines.
pub open spec fn sizes_after(sections: Seq<SectionHeader>, edits: Seq<Edit>) -> Seq<u64> {
    Seq::new(
        sections.len(),
        |i: int|
            match edits[i].new_size {
                Some(new_size) => new_size,
                None => sections[i].sh_size,
            },
    )
}

/// The bytes of a section in the new image: what the edit wrote, or the bytes
/// of the section in the input where the edit declines.
pub open spec fn content_after(input: Seq<u8>, section: SectionHeader, edit: Edit) -> Seq<u8> {
    match edit.new_size {
        Some(_) => edit.content,
        None => input.subrange(section.sh_offset as int, section.end()),
    }
}

/// The first `n` program headers, packed one after the other.
pub open spec fn program_headers_image(headers: Seq<ProgramHeader>, ctx: Ctx, n: nat) -> Result<
    Seq<u8>,
    TransformError,
>
    decreases n,
{
    if n == 0 {
        Ok(Seq::empty())
    } else {
        match program_headers_image(headers, ctx, (n - 1) as nat) {
            Err(e) => Err(e),
            Ok(image) => match program_header_bytes(headers[n - 1], ctx) {
                None => Err(TransformError::ProgramHeaderEncoding { index: (n - 1) as usize }),
                Some(bytes) => Ok(image + bytes),
            },
        }
    }
}

/// The first `n` section headers, packed one after the other.
pub open spec fn section_headers_image(headers: Seq<SectionHeader>, ctx: Ctx, n: nat) -> Result<
    Seq<u8>,
    TransformError,
>
    decreases n,
{
    if n == 0 {
        Ok(Seq::empty())
    } else {
        match section_headers_image(headers, ctx, (n - 1) as nat) {
            Err(e) => Err(e),
            Ok(image) => match section_header_bytes(headers[n - 1], ctx) {
                None => Err(TransformError::SectionHeaderEncoding { index: (n - 1) as usize }),
                Some(bytes) => Ok(image + bytes),
            },
        }
    }
}

/// The first `n` sections as they stand in the new image, which is written up
/// to `start` before them: each section is preceded by zero bytes from the end
/// of what is written up to its planned offset.
pub open spec fn sections_image(
    input: Seq<u8>,
    sections: Seq<SectionHeader>,
    planned: Seq<SectionHeader>,
    edits: Seq<Edit>,
    start: int,
    n: nat,
) -> Result<Seq<u8>, TransformError>
    decreases n,
{
    if n == 0 {
        Ok(Seq::empty())
    } else {
        match sections_image(input, sections, planned, edits, start, (n - 1) as nat) {
            Err(e) => Err(e),
            Ok(image) => {
                let written_up_to = start + image.len();
                let target = planned[n - 1].sh_offset;
                if target < written_up_to {
                    Err(
                        TransformError::PaddingBehind {
                            target,
                            written_up_to: written_up_to as u64,
                        },
                    )
                } else if edits[n - 1].new_size is None && sections[n - 1].end() > input.len() {
                    Err(TransformError::SectionOutOfInput { section: (n - 1) as usize })
                } else {
                    Ok(
                        image + zeros((target - written_up_to) as nat) + content_after(
                            input,
                            sections[n - 1],
                            edits[n - 1],
                        ),
                    )
                }
            },
        }
    }
}

/// The section headers of the new image: the first one of the input, the
/// empty one, and behind it the planned ones.
pub open spec fn section_header_table(
    section_headers: Seq<SectionHeader>,
    planned: Seq<SectionHeader>,
) -> Seq<SectionHeader> {
    if section_headers.len() == 0 {
        planned
    } else {
        seq![section_headers[0]] + planned
    }
}

/// The new image behind the file header, for a layout that is planned: the
/// program headers, the sections, zero bytes up to the section header table,
/// and the section headers.
pub open spec fn planned_image(
    input: Seq<u8>,
    section_headers: Seq<SectionHeader>,
    ctx: Ctx,
    edits: Seq<Edit>,
    plan: Plan,
) -> Result<Seq<u8>, TransformError> {
    let sections = content_sections(section_headers);
    let table = section_header_table(section_headers, plan.section_headers);
    match program_headers_image(plan.program_headers, ctx, plan.program_headers.len()) {
        Err(e) => Err(e),
        Ok(program_headers) => {
            let start = header_size_of(ctx) + program_headers.len();
            match sections_image(
                input,
                sections,
                plan.section_headers,
                edits,
                start,
                sections.len(),
            ) {
                Err(e) => Err(e),
                Ok(body) => {
                    let written_up_to = start + body.len();
                    if plan.section_headers_start < written_up_to {
                        Err(
                            TransformError::PaddingBehind {
                                target: plan.section_headers_start,
                                written_up_to: written_up_to as u64,
                            },
                        )
                    } else {
                        match section_headers_image(table, ctx, table.len()) {
                            Err(e) => Err(e),
                            Ok(headers) => Ok(
                                program_headers + body + zeros(
                                    (plan.section_headers_start - written_up_to) as nat,
                                ) + headers,
                            ),
                        }
                    }
                },
            }
        },
    }
}

/// The new image of a file whose sections behind the first were edited to
/// `edits`: the file header with the new offset of the section header table,
/// and behind it the image of the planned layout. The first thing that the
/// engine does not support, in the order of the writing, is the error.
pub open spec fn transformed(
    input: Seq<u8>,
    header: Header,
    program_headers: Seq<ProgramHeader>,
    section_headers: Seq<SectionHeader>,
    ctx: Ctx,
    edits: Seq<Edit>,
) -> Result<Seq<u8>, TransformError> {
    let sections = content_sections(section_headers);
    match first_mismatch(edits) {
        Some(i) => Err(
            TransformError::SizeMismatch {
                section: i as usize,
                reported: edits[i].new_size->Some_0,
                written: edits[i].content.len() as usize,
            },
        ),
        None => match shifts(program_headers, sections, sizes_after(sections, edits)) {
            Err(e) => Err(TransformError::Layout(e)),
            Ok(plan) => if !header.names_byte_order() {
                Err(TransformError::HeaderByteOrder)
            } else if header_size_of(ctx) != header.e_phoff {
                Err(
                    TransformError::ProgramHeadersNotAdjacent {
                        header_size: header_size_of(ctx),
                        offset: header.e_phoff,
                    },
                )
            } else {
                match planned_image(input, section_headers, ctx, edits, plan) {
                    Err(e) => Err(e),
                    Ok(image) => Ok(
                        header_bytes(Header { e_shoff: plan.section_headers_start, ..header }, ctx)
                            + image,
                    ),
                }
            },
        },
    }
}

/// Once the packing of the program headers has failed it stays failed.
pub proof fn lemma_program_headers_failure_stays(
    headers: Seq<ProgramHeader>,
    ctx: Ctx,
    n: nat,
    m: nat,
)
    requires
        n <= m,
        program_headers_image(headers, ctx, n) is Err,
    ensures
        program_headers_image(headers, ctx, m) == program_headers_image(headers, ctx, n),
    decreases m,
{
    if n < m {
        lemma_program_headers_failure_stays(headers, ctx, n, (m - 1) as nat);
    }
}

/// Once the packing of the section headers has failed it stays failed.
pub proof fn lemma_section_headers_failure_stays(
    headers: Seq<SectionHeader>,
    ctx: Ctx,
    n: nat,
    m: nat,
)
    requires
        n <= m,
        section_headers_image(headers, ctx, n) is Err,
    ensures
        section_headers_image(headers, ctx, m) == section_headers_image(headers, ctx, n),
    decreases m,
{
    if n < m {
        lemma_section_headers_failure_stays(headers, ctx, n, (m - 1) as nat);
    }
}

/// Once the writing of the sections has failed it stays failed.
pub proof fn lemma_sections_failure_stays(
    input: Seq<u8>,
    sections: Seq<SectionHeader>,
    planned: Seq<SectionHeader>,
    edits: Seq<Edit>,
    start: int,
    n: nat,
    m: nat,
)
    requires
        n <= m,
        sections_image(input, sections, planned, edits, start, n) is Err,
    ensures
        sections_image(input, sections, planned, edits, start, m) == sections_image(
            input,
            sections,
            planned,
            edits,
            start,
            n,
        ),
    decreases m,
{
    if n < m {
        lemma_sections_failure_stays(input, sections, planned, edits, start, n, (m - 1) as nat);
    }
}

} // verus!
