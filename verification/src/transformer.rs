//! Planning of a new layout, and the writing of the new image.
//!
//! [`plan`] and [`image`] say what the layout and the image are; the functions
//! here compute them. [`laws`] holds what follows for every layout and every
//! image, proved from the lemmas in [`steps`].

use crate::codec::{
    header_size, header_size_of, iowrite_header, program_header_bytes, program_header_size,
    program_header_try_into_ctx, section_header_bytes, section_header_size,
    section_header_try_into_ctx,
};
use crate::elf::{Ctx, Header, ProgramHeader, SectionHeader, EI_DATA, ELFDATA2LSB, ELFDATA2MSB};
use vstd::prelude::*;
use vstd::slice::slice_subrange;

pub mod image;
pub mod laws;
pub mod plan;
pub mod steps;

pub use self::image::{
    content_after, content_sections, edits_of, first_mismatch, is_first_mismatch, is_mismatch,
    planned_image, program_headers_image, section_header_table, section_headers_image,
    sections_image, sizes_after, transformed, zeros, Edit,
};
pub use self::plan::{
    aligned_at_or_after, dimensions_of, finished, first_end, first_start, initial_bindings,
    is_first_end, is_first_start, is_first_unbound, observe, observe_end, observe_start, place,
    placed, shifts, Binding, Plan, Progress,
};
use self::image::{
    lemma_program_headers_failure_stays, lemma_section_headers_failure_stays,
    lemma_sections_failure_stays,
};
use self::plan::lemma_failure_stays;

verus! {

/// Whether a section was seen at each end of a program header. Each flag is
/// set at most once.
#[derive(Clone, Copy, Debug, PartialEq, Eq, Structural)]
pub struct ProgramHeaderUpdate {
    /// A section was seen that starts where the program header starts.
    pub start: bool,
    /// A section was seen that ends where the program header ends.
    pub end: bool,
}

impl ProgramHeaderUpdate {
    /// No section was seen at either end yet.
    pub fn no_updates() -> (res: Self)
        ensures
            res == (ProgramHeaderUpdate { start: false, end: false }),
    {
        Self { start: false, end: false }
    }
}

/// Where a byte range lies in the file.
#[derive(Clone, Copy, Debug, PartialEq, Eq, Structural)]
pub struct SectionDimensions {
    pub offset: u64,
    pub size: u64,
}

impl SectionDimensions {
    /// Offset just past the range.
    pub open spec fn end(self) -> int {
        self.offset + self.size
    }
}

/// Why no layout can be planned. Each of these means that the file has a
/// structure outside of what the engine supports.
#[derive(Clone, Copy, Debug, PartialEq, Eq, Structural)]
pub enum LayoutError {
    /// The end of the section, at its aligned offset, does not fit in 64 bits.
    OffsetOverflow { section: usize },
    /// A second section starts where the program header starts.
    StartSeenTwice { program_header: usize },
    /// A second section ends where the program header ends.
    EndSeenTwice { program_header: usize },
    /// The section that ends the program header now ends before the program
    /// header starts.
    NegativeFileSize { program_header: usize },
    /// The change of the file size does not fit in a signed 64-bit number.
    SizeChangeOverflow { program_header: usize },
    /// The size in memory, changed as the file size, does not fit in 64 bits.
    MemorySizeOverflow { program_header: usize },
    /// No section starts where the program header starts.
    StartNotSeen { program_header: usize },
    /// No section ends where the program header ends.
    EndNotSeen { program_header: usize },
}

/// Helper used to update program headers.
pub struct OutputProgramHeadersUpdater {
    /// Where each program header lay in the input, and which of its ends have
    /// been bound. Same size as `output` and matches based on the index.
    meta: Vec<(SectionDimensions, ProgramHeaderUpdate)>,
    /// The program headers as they stand after the edit. Same size as `meta`
    /// and matches based on the index.
    output: Vec<ProgramHeader>,
}

impl View for OutputProgramHeadersUpdater {
    type V = Seq<Binding>;

    closed spec fn view(&self) -> Seq<Binding> {
        Seq::new(
            self.meta@.len(),
            |i: int| Binding { update: self.meta@[i].1, header: self.output@[i] },
        )
    }
}

impl OutputProgramHeadersUpdater {
    #[verifier::type_invariant]
    spec fn same_length(self) -> bool {
        self.meta@.len() == self.output@.len()
    }

    /// Where the program headers lay in the input.
    pub closed spec fn originals(&self) -> Seq<SectionDimensions> {
        Seq::new(self.meta@.len(), |i: int| self.meta@[i].0)
    }

    /// Initially the updater holds a copy of the `program_headers`, and none
    /// is marked as updated.
    pub fn new(program_headers: &[ProgramHeader]) -> (res: Self)
        ensures
            res@ == initial_bindings(program_headers@),
            res.originals() == dimensions_of(program_headers@),
    {
        let mut meta: Vec<(SectionDimensions, ProgramHeaderUpdate)> = Vec::new();
        let mut output: Vec<ProgramHeader> = Vec::new();
        let mut i: usize = 0;
        while i < program_headers.len()
            invariant
                i <= program_headers@.len(),
                meta@.len() == i,
                output@.len() == i,
                forall|j: int|
                    0 <= j < i ==> (#[trigger] meta@[j]) == (
                        SectionDimensions {
                            offset: program_headers@[j].p_offset,
                            size: program_headers@[j].p_filesz,
                        },
                        ProgramHeaderUpdate { start: false, end: false },
                    ),
                forall|j: int| 0 <= j < i ==> (#[trigger] output@[j]) == program_headers@[j],
            decreases program_headers@.len() - i,
        {
            let header = program_headers[i];
            meta.push(
                (
                    SectionDimensions { offset: header.p_offset, size: header.p_filesz },
                    ProgramHeaderUpdate::no_updates(),
                ),
            );
            output.push(header);
            i += 1;
        }
        let res = Self { meta, output };
        assert(res@ =~= initial_bindings(program_headers@));
        assert(res.originals() =~= dimensions_of(program_headers@));
        res
    }

    /// The first program header that started at `offset` in the input.
    fn find_start(&self, offset: u64) -> (res: Option<usize>)
        ensures
            match res {
                Some(i) => first_start(self.originals(), offset) == Some(i as int),
                None => first_start(self.originals(), offset) is None,
            },
    {
        let mut i: usize = 0;
        while i < self.meta.len()
            invariant
                i <= self.meta@.len(),
                self.originals().len() == self.meta@.len(),
                forall|j: int| 0 <= j < i ==> (#[trigger] self.originals()[j]).offset != offset,
            decreases self.meta@.len() - i,
        {
            if self.meta[i].0.offset == offset {
                assert(is_first_start(self.originals(), offset, i as int));
                return Some(i);
            }
            i += 1;
        }
        None
    }

    /// The first program header that ended at `end` in the input.
    fn find_end(&self, end: u128) -> (res: Option<usize>)
        ensures
            match res {
                Some(i) => first_end(self.originals(), end as int) == Some(i as int),
                None => first_end(self.originals(), end as int) is None,
            },
    {
        let mut i: usize = 0;
        while i < self.meta.len()
            invariant
                i <= self.meta@.len(),
                self.originals().len() == self.meta@.len(),
                forall|j: int| 0 <= j < i ==> (#[trigger] self.originals()[j]).end() != end,
            decreases self.meta@.len() - i,
        {
            let dimensions = self.meta[i].0;
            if dimensions.offset as u128 + dimensions.size as u128 == end {
                assert(is_first_end(self.originals(), end as int, i as int));
                return Some(i);
            }
            i += 1;
        }
        None
    }

    /// Every time a file section is updated we might need to update a program
    /// header that holds it: one that starts where the section started, and
    /// one that ends where the section ended. A linear search through the
    /// program headers finds them.
    pub fn observe_file_section(&mut self, was: SectionDimensions, now: SectionDimensions) -> (res:
        Result<(), LayoutError>)
        requires
            now.end() <= u64::MAX,
        ensures
            final(self).originals() == old(self).originals(),
            match observe(old(self).originals(), old(self)@, was, now) {
                Ok(bindings) => res is Ok && final(self)@ == bindings,
                Err(e) => res == Err::<(), LayoutError>(e),
            },
    {
        proof {
            use_type_invariant(&*self);
        }
        let ghost before = self@;
        let ghost originals = self.originals();
        if let Some(i) = self.find_start(was.offset) {
            let (dimensions, update) = self.meta[i];
            if update.start {
                return Err(LayoutError::StartSeenTwice { program_header: i });
            }
            let header = self.output[i];
            self.meta[i] = (dimensions, ProgramHeaderUpdate { start: true, end: update.end });
            self.output[i] = ProgramHeader { p_offset: now.offset, ..header };
            assert(self.originals() =~= originals);
        }
        let ghost started = self@;
        assert(observe_start(originals, before, was, now) == Ok::<Seq<Binding>, LayoutError>(
            started,
        )) by {
            assert(started =~= observe_start(originals, before, was, now)->Ok_0);
        }
        if let Some(i) = self.find_end(was.offset as u128 + was.size as u128) {
            let (dimensions, update) = self.meta[i];
            if update.end {
                return Err(LayoutError::EndSeenTwice { program_header: i });
            }
            let header = self.output[i];
            // The file section may not cover the whole program header, so the
            // size is taken between absolute offsets.
            let new_filesz = match (now.offset + now.size).checked_sub(header.p_offset) {
                Some(size) => size,
                None => { return Err(LayoutError::NegativeFileSize { program_header: i }); },
            };
            let size_adjustment = match checked_signed_diff(new_filesz, header.p_filesz) {
                Some(change) => change,
                None => { return Err(LayoutError::SizeChangeOverflow { program_header: i }); },
            };
            let new_memsz = match header.p_memsz.checked_add_signed(size_adjustment) {
                Some(size) => size,
                None => { return Err(LayoutError::MemorySizeOverflow { program_header: i }); },
            };
            self.meta[i] = (dimensions, ProgramHeaderUpdate { start: update.start, end: true });
            self.output[i] = ProgramHeader { p_filesz: new_filesz, p_memsz: new_memsz, ..header };
            assert(self.originals() =~= originals);
        }
        assert(observe_end(originals, started, was, now) == Ok::<Seq<Binding>, LayoutError>(
            self@,
        )) by {
            assert(self@ =~= observe_end(originals, started, was, now)->Ok_0);
        }
        Ok(())
    }

    /// The program headers after the edit, where every one was bound to a
    /// section at both ends.
    pub fn into_result(self) -> (res: Result<Vec<ProgramHeader>, LayoutError>)
        ensures
            match finished(self@) {
                Ok(headers) => res is Ok && res->Ok_0@ == headers,
                Err(e) => res == Err::<Vec<ProgramHeader>, LayoutError>(e),
            },
    {
        proof {
            use_type_invariant(&self);
        }
        let mut i: usize = 0;
        while i < self.meta.len()
            invariant
                i <= self.meta@.len(),
                self@.len() == self.meta@.len(),
                forall|j: int|
                    0 <= j < i ==> (#[trigger] self@[j]).update.start && self@[j].update.end,
            decreases self.meta@.len() - i,
        {
            let update = self.meta[i].1;
            if !update.start {
                assert(is_first_unbound(self@, i as int));
                return Err(LayoutError::StartNotSeen { program_header: i });
            }
            if !update.end {
                assert(is_first_unbound(self@, i as int));
                return Err(LayoutError::EndNotSeen { program_header: i });
            }
            i += 1;
        }
        assert(self.output@ =~= finished(self@)->Ok_0);
        Ok(self.output)
    }
}

/// The new layout: what the planning hands to the writing.
#[derive(Debug, Clone, PartialEq, Eq)]
pub struct ComputeShiftsResult {
    /// The program headers, each bound to the sections at its two ends.
    pub program_headers: Vec<ProgramHeader>,
    /// The section headers, each with its new offset and size.
    pub section_headers: Vec<SectionHeader>,
    /// The new offset of the section header table.
    pub section_headers_start: u64,
}

impl View for ComputeShiftsResult {
    type V = Plan;

    open spec fn view(&self) -> Plan {
        Plan {
            program_headers: self.program_headers@,
            section_headers: self.section_headers@,
            section_headers_start: self.section_headers_start,
        }
    }
}

/// The first aligned offset at or after `cursor`, where it fits in 64 bits.
fn align_up(cursor: u64, align: u64) -> (res: Option<u64>)
    ensures
        match res {
            Some(offset) => offset == aligned_at_or_after(cursor as int, align as int),
            None => aligned_at_or_after(cursor as int, align as int) > u64::MAX,
        },
{
    proof {
        reveal(aligned_at_or_after);
    }
    if align <= 1 {
        return Some(cursor);
    }
    let rest = cursor % align;
    if rest == 0 {
        Some(cursor)
    } else {
        cursor.checked_add(align - rest)
    }
}

/// Computes the new layout from the new size of each section: the offset of
/// every section, the program headers bound to them, and the offset of the
/// section header table.
pub fn plan_shifts(
    input_program_headers: &[ProgramHeader],
    input_section_headers: &[SectionHeader],
    new_sizes: &[u64],
) -> (res: Result<ComputeShiftsResult, LayoutError>)
    requires
        new_sizes@.len() == input_section_headers@.len(),
    ensures
        match shifts(input_program_headers@, input_section_headers@, new_sizes@) {
            Ok(plan) => res is Ok && res->Ok_0@ == plan,
            Err(e) => res == Err::<ComputeShiftsResult, LayoutError>(e),
        },
{
    if input_section_headers.len() == 0 {
        return Ok(
            ComputeShiftsResult {
                program_headers: Vec::new(),
                section_headers: Vec::new(),
                section_headers_start: 0,
            },
        );
    }
    let mut vacant_at = input_section_headers[0].sh_offset;
    let mut output_program_headers_updater = OutputProgramHeadersUpdater::new(
        input_program_headers,
    );
    let mut output_section_headers: Vec<SectionHeader> = Vec::with_capacity(
        input_section_headers.len(),
    );
    let mut i: usize = 0;
    while i < input_section_headers.len()
        invariant
            i <= input_section_headers@.len(),
            new_sizes@.len() == input_section_headers@.len(),
            output_program_headers_updater.originals() == dimensions_of(input_program_headers@),
            placed(input_program_headers@, input_section_headers@, new_sizes@, i as nat) == Ok::<
                Progress,
                LayoutError,
            >(
                Progress {
                    bindings: output_program_headers_updater@,
                    sections: output_section_headers@,
                    cursor: vacant_at,
                },
            ),
        decreases input_section_headers@.len() - i,
    {
        let input_section_header = input_section_headers[i];
        let new_section_size = new_sizes[i];
        proof {
            if placed(input_program_headers@, input_section_headers@, new_sizes@, (i + 1) as nat)
                is Err {
                lemma_failure_stays(
                    input_program_headers@,
                    input_section_headers@,
                    new_sizes@,
                    (i + 1) as nat,
                    input_section_headers@.len(),
                );
            }
        }
        let new_section_offset = match align_up(vacant_at, input_section_header.sh_addralign) {
            Some(offset) => offset,
            None => { return Err(LayoutError::OffsetOverflow { section: i }); },
        };
        let new_section_end = match new_section_offset.checked_add(new_section_size) {
            Some(end) => end,
            None => { return Err(LayoutError::OffsetOverflow { section: i }); },
        };
        output_section_headers.push(
            SectionHeader {
                sh_offset: new_section_offset,
                sh_size: new_section_size,
                ..input_section_header
            },
        );
        match output_program_headers_updater.observe_file_section(
            SectionDimensions {
                offset: input_section_header.sh_offset,
                size: input_section_header.sh_size,
            },
            SectionDimensions { offset: new_section_offset, size: new_section_size },
        ) {
            Ok(()) => {},
            Err(e) => { return Err(e); },
        }
        vacant_at = new_section_end;
        i += 1;
    }
    match output_program_headers_updater.into_result() {
        Ok(program_headers) => Ok(
            ComputeShiftsResult {
                program_headers,
                section_headers: output_section_headers,
                section_headers_start: vacant_at,
            },
        ),
        Err(e) => Err(e),
    }
}

/// `size` is a size that the section can have after `transformer`: the size
/// that a call on an empty sink reports, or the old size where the call
/// declines.
pub open spec fn reports_size<F>(
    transformer: F,
    input_bytes: &[u8],
    header: SectionHeader,
    ctx: Ctx,
    size: u64,
) -> bool where F: Fn(&[u8], &SectionHeader, Ctx, &mut Vec<u8>) -> Option<u64> {
    exists|sink: &mut Vec<u8>, reported: Option<u64>|
        sink@.len() == 0 && #[trigger] call_ensures(
            transformer,
            (input_bytes, &header, ctx, sink),
            reported,
        ) && size == match reported {
            Some(new_size) => new_size,
            None => header.sh_size,
        }
}

/// `sizes` holds, for each section, a size that it can have after
/// `transformer`.
pub open spec fn dry_run<F>(
    transformer: F,
    input_bytes: &[u8],
    section_headers: Seq<SectionHeader>,
    ctx: Ctx,
    sizes: Seq<u64>,
) -> bool where F: Fn(&[u8], &SectionHeader, Ctx, &mut Vec<u8>) -> Option<u64> {
    &&& sizes.len() == section_headers.len()
    &&& forall|i: int|
        0 <= i < section_headers.len() ==> reports_size(
            transformer,
            input_bytes,
            section_headers[i],
            ctx,
            #[trigger] sizes[i],
        )
}

/// `transformer` can be called on every section with an empty sink.
pub open spec fn takes_sections<F>(
    transformer: F,
    input_bytes: &[u8],
    section_headers: Seq<SectionHeader>,
    ctx: Ctx,
) -> bool where F: Fn(&[u8], &SectionHeader, Ctx, &mut Vec<u8>) -> Option<u64> {
    forall|i: int, sink: &mut Vec<u8>|
        0 <= i < section_headers.len() && sink@.len() == 0 ==> call_requires(
            transformer,
            (input_bytes, &#[trigger] section_headers[i], ctx, sink),
        )
}

/// Runs the transformation on every section without keeping what it writes,
/// and returns the size that each section has after it.
pub fn new_section_sizes<F>(
    input_bytes: &[u8],
    input_section_headers: &[SectionHeader],
    ctx: Ctx,
    transformer: &F,
) -> (sizes: Vec<u64>) where F: Fn(&[u8], &SectionHeader, Ctx, &mut Vec<u8>) -> Option<u64>
    requires
        takes_sections(*transformer, input_bytes, input_section_headers@, ctx),
    ensures
        dry_run(*transformer, input_bytes, input_section_headers@, ctx, sizes@),
{
    let mut sizes: Vec<u64> = Vec::with_capacity(input_section_headers.len());
    let mut i: usize = 0;
    while i < input_section_headers.len()
        invariant
            i <= input_section_headers@.len(),
            sizes@.len() == i,
            takes_sections(*transformer, input_bytes, input_section_headers@, ctx),
            forall|j: int|
                0 <= j < i ==> reports_size(
                    *transformer,
                    input_bytes,
                    input_section_headers@[j],
                    ctx,
                    #[trigger] sizes@[j],
                ),
        decreases input_section_headers@.len() - i,
    {
        let input_section_header = &input_section_headers[i];
        let mut sink: Vec<u8> = Vec::new();
        let new_section_size = match transformer(input_bytes, input_section_header, ctx, &mut sink) {
            Some(new_size) => new_size,
            None => input_section_header.sh_size,
        };
        sizes.push(new_section_size);
        i += 1;
    }
    sizes
}

/// Runs the section transformation for the whole file without producing any
/// output, and records the size of each section after it. From the sizes it
/// computes the new section headers, the program headers bound to them and
/// the offset of the section header table, all in one go.
pub fn compute_shifts<F>(
    input_bytes: &[u8],
    input_program_headers: &[ProgramHeader],
    input_section_headers: &[SectionHeader],
    ctx: Ctx,
    transformer: F,
) -> (res: ComputeShiftsResult) where F: Fn(&[u8], &SectionHeader, Ctx, &mut Vec<u8>) -> Option<u64>
    requires
        takes_sections(transformer, input_bytes, input_section_headers@, ctx),
        forall|sizes: Seq<u64>| #[trigger]
            dry_run(transformer, input_bytes, input_section_headers@, ctx, sizes) ==> shifts(
                input_program_headers@,
                input_section_headers@,
                sizes,
            ) is Ok,
    ensures
        exists|sizes: Seq<u64>| #[trigger]
            dry_run(transformer, input_bytes, input_section_headers@, ctx, sizes) && shifts(
                input_program_headers@,
                input_section_headers@,
                sizes,
            ) == Ok::<Plan, LayoutError>(res@),
{
    let sizes = new_section_sizes(input_bytes, input_section_headers, ctx, &transformer);
    match plan_shifts(input_program_headers, input_section_headers, sizes.as_slice()) {
        Ok(plan) => plan,
        Err(_) => vstd::pervasive::unreached(),
    }
}

/// Writes zero bytes until `written_up_to` has reached `target_offset`. The
/// bytes are taken from `buf`, one buffer's length at a time.
pub fn add_padding(
    output: &mut Vec<u8>,
    buf: &mut [u8],
    target_offset: u64,
    written_up_to: &mut u64,
)
    requires
        old(buf)@.len() > 0,
        *old(written_up_to) <= target_offset,
    ensures
        final(output)@ == old(output)@ + zeros((target_offset - *old(written_up_to)) as nat),
        *final(written_up_to) == target_offset,
        final(buf)@.len() == old(buf)@.len(),
{
    while *written_up_to < target_offset
        invariant
            buf@.len() == old(buf)@.len(),
            buf@.len() > 0,
            *old(written_up_to) <= *written_up_to <= target_offset,
            output@ == old(output)@ + zeros((*written_up_to - *old(written_up_to)) as nat),
        decreases target_offset - *written_up_to,
    {
        let left: u64 = target_offset - *written_up_to;
        let size: usize = if left < buf.len() as u64 {
            left as usize
        } else {
            buf.len()
        };
        let mut i: usize = 0;
        while i < size
            invariant
                i <= size <= buf@.len(),
                buf@.len() == old(buf)@.len(),
                forall|j: int| 0 <= j < i ==> buf@[j] == 0,
            decreases size - i,
        {
            buf[i] = 0;
            i += 1;
        }
        output.extend_from_slice(slice_subrange(&*buf, 0, size));
        assert(output@ =~= old(output)@ + zeros(
            (*written_up_to + size - *old(written_up_to)) as nat,
        ));
        *written_up_to += size as u64;
    }
}

/// The difference `a - b`, where it fits.
pub fn checked_signed_diff(a: u64, b: u64) -> (res: Option<i64>)
    ensures
        res is Some <==> i64::MIN <= a - b <= i64::MAX,
        res matches Some(d) ==> d == a - b,
{
    if a >= b {
        let d: u64 = a - b;
        if d > i64::MAX as u64 {
            None
        } else {
            Some(d as i64)
        }
    } else {
        let d: u64 = b - a;
        if d > i64::MAX as u64 {
            if d == i64::MAX as u64 + 1 {
                Some(i64::MIN)
            } else {
                None
            }
        } else {
            Some(-(d as i64))
        }
    }
}

/// The difference `a - b` of two unsigned numbers as a signed one.
pub fn strict_signed_diff(a: u64, b: u64) -> (res: i64)
    requires
        i64::MIN <= a - b <= i64::MAX,
    ensures
        res == a - b,
{
    match checked_signed_diff(a, b) {
        Some(d) => d,
        None => vstd::pervasive::unreached(),
    }
}

/// What the transformation made of one section.
#[derive(Debug, Clone, PartialEq, Eq)]
pub struct SectionEdit {
    /// The size that the transformation reported for the section, or `None`
    /// where it declined to change it.
    pub new_size: Option<u64>,
    /// The bytes that the transformation wrote.
    pub content: Vec<u8>,
}

impl View for SectionEdit {
    type V = Edit;

    open spec fn view(&self) -> Edit {
        Edit { new_size: self.new_size, content: self.content@ }
    }
}

/// Why no new image can be written. Each of these means that the file, or the
/// transformation, is outside of what the engine supports. Sections are
/// counted from 0 behind the first section header, the empty one.
#[derive(Clone, Copy, Debug, PartialEq, Eq, Structural)]
pub enum TransformError {
    /// The transformation reported a size for the section and wrote another
    /// number of bytes.
    SizeMismatch { section: usize, reported: u64, written: usize },
    /// No layout can be planned.
    Layout(LayoutError),
    /// The file header names no byte order that can be packed.
    HeaderByteOrder,
    /// The program header table does not follow the file header at once.
    ProgramHeadersNotAdjacent { header_size: usize, offset: u64 },
    /// The program header cannot be packed.
    ProgramHeaderEncoding { index: usize },
    /// The next part is planned at `target`, and the image is written up to
    /// `written_up_to` already.
    PaddingBehind { target: u64, written_up_to: u64 },
    /// The section is to be copied and does not lie within the input.
    SectionOutOfInput { section: usize },
    /// The section header cannot be packed.
    SectionHeaderEncoding { index: usize },
}

/// Packs the program header and appends it to `output`. Returns whether it
/// could be packed.
fn iowrite_program_header(output: &mut Vec<u8>, value: &ProgramHeader, ctx: Ctx) -> (written: bool)
    ensures
        written == program_header_bytes(*value, ctx) is Some,
        written ==> final(output)@ == old(output)@ + program_header_bytes(*value, ctx)->Some_0,
        !written ==> final(output)@ == old(output)@,
{
    let size = program_header_size(ctx);
    match program_header_try_into_ctx(value, ctx, size) {
        Some(bytes) => {
            output.extend_from_slice(bytes.as_slice());
            true
        },
        None => false,
    }
}

/// Packs the section header and appends it to `output`. Returns whether it
/// could be packed.
fn iowrite_section_header(output: &mut Vec<u8>, value: &SectionHeader, ctx: Ctx) -> (written: bool)
    ensures
        written == section_header_bytes(*value, ctx) is Some,
        written ==> final(output)@ == old(output)@ + section_header_bytes(*value, ctx)->Some_0,
        !written ==> final(output)@ == old(output)@,
{
    let size = section_header_size(ctx);
    match section_header_try_into_ctx(value, ctx, size) {
        Some(bytes) => {
            output.extend_from_slice(bytes.as_slice());
            true
        },
        None => false,
    }
}

/// Appends the program headers to `output`, packed one after the other.
fn write_program_headers(output: &mut Vec<u8>, headers: &[ProgramHeader], ctx: Ctx) -> (res: Result<
    (),
    TransformError,
>)
    ensures
        old(output)@.is_prefix_of(final(output)@),
        match program_headers_image(headers@, ctx, headers@.len()) {
            Ok(image) => res is Ok && final(output)@ == old(output)@ + image,
            Err(e) => res == Err::<(), TransformError>(e),
        },
{
    let mut i: usize = 0;
    while i < headers.len()
        invariant
            i <= headers@.len(),
            program_headers_image(headers@, ctx, i as nat) is Ok,
            output@ == old(output)@ + program_headers_image(headers@, ctx, i as nat)->Ok_0,
        decreases headers@.len() - i,
    {
        proof {
            if program_headers_image(headers@, ctx, (i + 1) as nat) is Err {
                lemma_program_headers_failure_stays(
                    headers@,
                    ctx,
                    (i + 1) as nat,
                    headers@.len(),
                );
            }
        }
        if !iowrite_program_header(output, &headers[i], ctx) {
            return Err(TransformError::ProgramHeaderEncoding { index: i });
        }
        assert(output@ =~= old(output)@ + program_headers_image(
            headers@,
            ctx,
            (i + 1) as nat,
        )->Ok_0);
        i += 1;
    }
    Ok(())
}

/// Appends the section headers to `output`, packed one after the other.
fn write_section_headers(output: &mut Vec<u8>, headers: &[SectionHeader], ctx: Ctx) -> (res: Result<
    (),
    TransformError,
>)
    ensures
        old(output)@.is_prefix_of(final(output)@),
        match section_headers_image(headers@, ctx, headers@.len()) {
            Ok(image) => res is Ok && final(output)@ == old(output)@ + image,
            Err(e) => res == Err::<(), TransformError>(e),
        },
{
    let mut i: usize = 0;
    while i < headers.len()
        invariant
            i <= headers@.len(),
            section_headers_image(headers@, ctx, i as nat) is Ok,
            output@ == old(output)@ + section_headers_image(headers@, ctx, i as nat)->Ok_0,
        decreases headers@.len() - i,
    {
        proof {
            if section_headers_image(headers@, ctx, (i + 1) as nat) is Err {
                lemma_section_headers_failure_stays(
                    headers@,
                    ctx,
                    (i + 1) as nat,
                    headers@.len(),
                );
            }
        }
        if !iowrite_section_header(output, &headers[i], ctx) {
            return Err(TransformError::SectionHeaderEncoding { index: i });
        }
        assert(output@ =~= old(output)@ + section_headers_image(
            headers@,
            ctx,
            (i + 1) as nat,
        )->Ok_0);
        i += 1;
    }
    Ok(())
}

/// Appends the sections to `output`, each at its planned offset. The image
/// starts at `base` in `output`, so that offsets count from there.
fn write_sections(
    output: &mut Vec<u8>,
    buf: &mut [u8],
    input_bytes: &[u8],
    sections: &[SectionHeader],
    planned: &[SectionHeader],
    edits: &[SectionEdit],
    base: usize,
) -> (res: Result<(), TransformError>)
    requires
        old(buf)@.len() > 0,
        planned@.len() == sections@.len(),
        edits@.len() == sections@.len(),
        base <= old(output)@.len(),
    ensures
        final(buf)@.len() == old(buf)@.len(),
        old(output)@.is_prefix_of(final(output)@),
        match sections_image(
            input_bytes@,
            sections@,
            planned@,
            edits_of(edits@),
            old(output)@.len() - base,
            sections@.len(),
        ) {
            Ok(image) => res is Ok && final(output)@ == old(output)@ + image,
            Err(e) => res == Err::<(), TransformError>(e),
        },
{
    let ghost start = old(output)@.len() - base;
    let mut k: usize = 0;
    while k < sections.len()
        invariant
            k <= sections@.len(),
            planned@.len() == sections@.len(),
            edits@.len() == sections@.len(),
            buf@.len() == old(buf)@.len(),
            buf@.len() > 0,
            base <= old(output)@.len(),
            start == old(output)@.len() - base,
            sections_image(input_bytes@, sections@, planned@, edits_of(edits@), start, k as nat)
                is Ok,
            output@ == old(output)@ + sections_image(
                input_bytes@,
                sections@,
                planned@,
                edits_of(edits@),
                start,
                k as nat,
            )->Ok_0,
        decreases sections@.len() - k,
    {
        proof {
            if sections_image(
                input_bytes@,
                sections@,
                planned@,
                edits_of(edits@),
                start,
                (k + 1) as nat,
            ) is Err {
                lemma_sections_failure_stays(
                    input_bytes@,
                    sections@,
                    planned@,
                    edits_of(edits@),
                    start,
                    (k + 1) as nat,
                    sections@.len(),
                );
            }
        }
        let ghost image = sections_image(
            input_bytes@,
            sections@,
            planned@,
            edits_of(edits@),
            start,
            k as nat,
        )->Ok_0;
        let target = planned[k].sh_offset;
        let mut written_up_to = (output.len() - base) as u64;
        assert(written_up_to == start + image.len());
        if target < written_up_to {
            return Err(TransformError::PaddingBehind { target, written_up_to });
        }
        let input_section_header = &sections[k];
        let edit = &edits[k];
        assert(edits_of(edits@)[k as int] == edit@);
        match edit.new_size {
            Some(_) => {
                add_padding(output, buf, target, &mut written_up_to);
                // The transformation has written the new bytes of the section.
                output.extend_from_slice(edit.content.as_slice());
            },
            None => {
                let section_start = input_section_header.sh_offset;
                let section_size = input_section_header.sh_size;
                if section_start as u128 + section_size as u128 > input_bytes.len() as u128 {
                    return Err(TransformError::SectionOutOfInput { section: k });
                }
                add_padding(output, buf, target, &mut written_up_to);
                output.extend_from_slice(
                    slice_subrange(
                        input_bytes,
                        section_start as usize,
                        (section_start + section_size) as usize,
                    ),
                );
            },
        }
        assert(output@ =~= old(output)@ + sections_image(
            input_bytes@,
            sections@,
            planned@,
            edits_of(edits@),
            start,
            (k + 1) as nat,
        )->Ok_0);
        k += 1;
    }
    Ok(())
}

/// The size of each section after its edit, where no edit reports a size
/// other than the number of bytes that it holds.
fn sizes_after_edits(sections: &[SectionHeader], edits: &[SectionEdit]) -> (res: Result<
    Vec<u64>,
    TransformError,
>)
    requires
        edits@.len() == sections@.len(),
    ensures
        match first_mismatch(edits_of(edits@)) {
            Some(i) => res == Err::<Vec<u64>, TransformError>(
                TransformError::SizeMismatch {
                    section: i as usize,
                    reported: edits_of(edits@)[i].new_size->Some_0,
                    written: edits_of(edits@)[i].content.len() as usize,
                },
            ),
            None => res is Ok && res->Ok_0@ == sizes_after(sections@, edits_of(edits@)),
        },
{
    let mut sizes: Vec<u64> = Vec::with_capacity(sections.len());
    let mut i: usize = 0;
    while i < sections.len()
        invariant
            i <= sections@.len(),
            edits@.len() == sections@.len(),
            sizes@.len() == i,
            forall|j: int| 0 <= j < i ==> !is_mismatch(#[trigger] edits_of(edits@)[j]),
            forall|j: int|
                0 <= j < i ==> #[trigger] sizes@[j] == sizes_after(sections@, edits_of(edits@))[j],
        decreases sections@.len() - i,
    {
        let edit = &edits[i];
        assert(edits_of(edits@)[i as int] == edit@);
        match edit.new_size {
            Some(reported) => {
                let written = edit.content.len();
                if written as u64 != reported {
                    assert(is_first_mismatch(edits_of(edits@), i as int));
                    return Err(TransformError::SizeMismatch { section: i, reported, written });
                }
                sizes.push(reported);
            },
            None => {
                sizes.push(sections[i].sh_size);
            },
        }
        i += 1;
    }
    assert(sizes@ =~= sizes_after(sections@, edits_of(edits@)));
    Ok(sizes)
}

/// Size in bytes of the buffer that the padding is written from.
pub const PADDING_BUFFER_SIZE: usize = 256;

/// The section headers of the new image: the first one of the input and
/// behind it the planned ones.
fn new_section_header_table(section_headers: &[SectionHeader], planned: &[SectionHeader]) -> (table:
    Vec<SectionHeader>)
    ensures
        table@ == section_header_table(section_headers@, planned@),
{
    let mut table: Vec<SectionHeader> = Vec::with_capacity(section_headers.len());
    if section_headers.len() > 0 {
        table.push(section_headers[0]);
    }
    let mut i: usize = 0;
    while i < planned.len()
        invariant
            i <= planned@.len(),
            table@ == section_header_table(section_headers@, planned@.take(i as int)),
        decreases planned@.len() - i,
    {
        table.push(planned[i]);
        assert(table@ =~= section_header_table(section_headers@, planned@.take(i + 1)));
        i += 1;
    }
    assert(planned@.take(planned@.len() as int) =~= planned@);
    table
}

/// Appends to `output` what follows the file header in the new image: the
/// program headers, every section at its planned offset, zero bytes up to the
/// section header table, and the section headers. The image starts at `base`
/// in `output`, and the file header is written already.
fn write_planned(
    input_bytes: &[u8],
    section_headers: &[SectionHeader],
    ctx: Ctx,
    edits: &[SectionEdit],
    plan: &ComputeShiftsResult,
    output: &mut Vec<u8>,
    base: usize,
) -> (res: Result<(), TransformError>)
    requires
        edits@.len() == content_sections(section_headers@).len(),
        plan.section_headers@.len() == content_sections(section_headers@).len(),
        base + header_size_of(ctx) == old(output)@.len(),
    ensures
        old(output)@.is_prefix_of(final(output)@),
        match planned_image(input_bytes@, section_headers@, ctx, edits_of(edits@), plan@) {
            Ok(image) => res is Ok && final(output)@ == old(output)@ + image,
            Err(e) => res == Err::<(), TransformError>(e),
        },
{
    let sections = if section_headers.len() == 0 {
        section_headers
    } else {
        slice_subrange(section_headers, 1, section_headers.len())
    };
    assert(sections@ =~= content_sections(section_headers@));

    match write_program_headers(output, plan.program_headers.as_slice(), ctx) {
        Ok(()) => {},
        Err(e) => { return Err(e); },
    }
    let ghost packed_program_headers = program_headers_image(
        plan.program_headers@,
        ctx,
        plan.program_headers@.len(),
    )->Ok_0;
    let ghost start = header_size_of(ctx) + packed_program_headers.len();
    assert(output@.len() - base == start);

    let mut buf: Vec<u8> = vec![0u8; PADDING_BUFFER_SIZE];
    match write_sections(
        output,
        buf.as_mut_slice(),
        input_bytes,
        sections,
        plan.section_headers.as_slice(),
        edits,
        base,
    ) {
        Ok(()) => {},
        Err(e) => {
            assert(old(output)@.is_prefix_of(output@));
            return Err(e);
        },
    }
    let ghost body = sections_image(
        input_bytes@,
        sections@,
        plan.section_headers@,
        edits_of(edits@),
        start,
        sections@.len(),
    )->Ok_0;
    assert(output@ =~= old(output)@ + packed_program_headers + body);

    let mut written_up_to = (output.len() - base) as u64;
    if plan.section_headers_start < written_up_to {
        assert(old(output)@.is_prefix_of(output@));
        return Err(
            TransformError::PaddingBehind { target: plan.section_headers_start, written_up_to },
        );
    }
    add_padding(output, buf.as_mut_slice(), plan.section_headers_start, &mut written_up_to);
    let ghost padded = output@;
    assert(padded =~= old(output)@ + packed_program_headers + body + zeros(
        (plan.section_headers_start - (start + body.len())) as nat,
    ));

    let table = new_section_header_table(section_headers, plan.section_headers.as_slice());
    match write_section_headers(output, table.as_slice(), ctx) {
        Ok(()) => {},
        Err(e) => {
            assert(old(output)@.is_prefix_of(output@));
            return Err(e);
        },
    }
    assert(output@ =~= old(output)@ + planned_image(
        input_bytes@,
        section_headers@,
        ctx,
        edits_of(edits@),
        plan@,
    )->Ok_0);
    Ok(())
}

/// Writes the new image of a file whose sections behind the first were edited
/// to `edits`: plans the layout for the sizes after the edits and appends to
/// `output` the file header, the program headers, every section at its
/// planned offset and the section headers. After an error `output` holds
/// what was written up to it.
pub fn write_transformed(
    input_bytes: &[u8],
    header: &Header,
    program_headers: &[ProgramHeader],
    section_headers: &[SectionHeader],
    ctx: Ctx,
    edits: &[SectionEdit],
    output: &mut Vec<u8>,
) -> (res: Result<(), TransformError>)
    requires
        edits@.len() == content_sections(section_headers@).len(),
    ensures
        old(output)@.is_prefix_of(final(output)@),
        match transformed(
            input_bytes@,
            *header,
            program_headers@,
            section_headers@,
            ctx,
            edits_of(edits@),
        ) {
            Ok(image) => res is Ok && final(output)@ == old(output)@ + image,
            Err(e) => res == Err::<(), TransformError>(e),
        },
{
    let base = output.len();
    let sections = if section_headers.len() == 0 {
        section_headers
    } else {
        slice_subrange(section_headers, 1, section_headers.len())
    };
    assert(sections@ =~= content_sections(section_headers@));

    let sizes = match sizes_after_edits(sections, edits) {
        Ok(sizes) => sizes,
        Err(e) => { return Err(e); },
    };
    let plan = match plan_shifts(program_headers, sections, sizes.as_slice()) {
        Ok(plan) => plan,
        Err(e) => { return Err(TransformError::Layout(e)); },
    };
    proof {
        if sections@.len() > 0 {
            steps::lemma_placed_sections(program_headers@, sections@, sizes@, sections@.len());
        }
    }

    let byte_order = header.e_ident[EI_DATA];
    if !(byte_order == ELFDATA2LSB || byte_order == ELFDATA2MSB) {
        return Err(TransformError::HeaderByteOrder);
    }
    // Sections are neither added nor removed, so the program header table is
    // expected where it was: right behind the file header.
    let header_size = header_size(ctx);
    if header_size as u64 != header.e_phoff {
        return Err(
            TransformError::ProgramHeadersNotAdjacent { header_size, offset: header.e_phoff },
        );
    }
    let new_header = Header { e_shoff: plan.section_headers_start, ..*header };
    iowrite_header(output, &new_header, ctx);

    match write_planned(input_bytes, section_headers, ctx, edits, &plan, output, base) {
        Ok(()) => {},
        Err(e) => {
            assert(old(output)@.is_prefix_of(output@));
            return Err(e);
        },
    }
    assert(output@ =~= old(output)@ + transformed(
        input_bytes@,
        *header,
        program_headers@,
        section_headers@,
        ctx,
        edits_of(edits@),
    )->Ok_0);
    Ok(())
}

/// Runs the transformation on every section, each with a sink of its own, and
/// returns what it reported and wrote for each.
pub fn edit_sections<F>(
    input_bytes: &[u8],
    sections: &[SectionHeader],
    ctx: Ctx,
    transformer: &F,
) -> (edits: Vec<SectionEdit>) where F: Fn(&[u8], &SectionHeader, Ctx, &mut Vec<u8>) -> Option<u64>
    requires
        takes_sections(*transformer, input_bytes, sections@, ctx),
    ensures
        edits@.len() == sections@.len(),
        forall|i: int|
            #![trigger edits@[i]]
            0 <= i < sections@.len() ==> exists|sink: &mut Vec<u8>|
                sink@.len() == 0 && #[trigger] call_ensures(
                    *transformer,
                    (input_bytes, &sections@[i], ctx, sink),
                    edits@[i].new_size,
                ) && edits@[i].content@ == final(sink)@,
{
    let mut edits: Vec<SectionEdit> = Vec::with_capacity(sections.len());
    let mut i: usize = 0;
    while i < sections.len()
        invariant
            i <= sections@.len(),
            edits@.len() == i,
            takes_sections(*transformer, input_bytes, sections@, ctx),
            forall|j: int|
                #![trigger edits@[j]]
                0 <= j < i ==> exists|sink: &mut Vec<u8>|
                    sink@.len() == 0 && #[trigger] call_ensures(
                        *transformer,
                        (input_bytes, &sections@[j], ctx, sink),
                        edits@[j].new_size,
                    ) && edits@[j].content@ == final(sink)@,
        decreases sections@.len() - i,
    {
        let input_section_header = &sections[i];
        let mut content: Vec<u8> = Vec::new();
        let new_size = transformer(input_bytes, input_section_header, ctx, &mut content);
        edits.push(SectionEdit { new_size, content });
        i += 1;
    }
    edits
}

/// Produces the new image of an ELF file in which the transformation has
/// edited single sections, and appends it to `output`.
///
/// The transformation is called once for every section but the first, the
/// empty one, in the order of the section headers, each time with an empty
/// sink. Where it returns `None` the section keeps its bytes. Where it returns
/// a size, the section gets the bytes that the call wrote to the sink, and
/// their number has to be that size. The layout is planned from the sizes
/// after the edits.
///
/// The file and the transformation have to be such that the image can be
/// written. [`edit_sections`] and [`write_transformed`] do the same in two
/// steps, and say why where it cannot.
pub fn transform_elf_sections<F>(
    input_bytes: &[u8],
    header: &Header,
    program_headers: &[ProgramHeader],
    section_headers: &[SectionHeader],
    ctx: Ctx,
    output: &mut Vec<u8>,
    transformer: F,
) where F: Fn(&[u8], &SectionHeader, Ctx, &mut Vec<u8>) -> Option<u64>
    requires
        takes_sections(transformer, input_bytes, content_sections(section_headers@), ctx),
        forall|edits: Seq<Edit>|
            {
                &&& edits.len() == content_sections(section_headers@).len()
                &&& forall|i: int|
                    #![trigger edits[i]]
                    0 <= i < edits.len() ==> exists|sink: &mut Vec<u8>|
                        sink@.len() == 0 && #[trigger] call_ensures(
                            transformer,
                            (input_bytes, &content_sections(section_headers@)[i], ctx, sink),
                            edits[i].new_size,
                        ) && edits[i].content == final(sink)@
            } ==> (#[trigger] transformed(
                input_bytes@,
                *header,
                program_headers@,
                section_headers@,
                ctx,
                edits,
            )) is Ok,
    ensures
        exists|edits: Seq<Edit>|
            {
                &&& edits.len() == content_sections(section_headers@).len()
                &&& forall|i: int|
                    #![trigger edits[i]]
                    0 <= i < edits.len() ==> exists|sink: &mut Vec<u8>|
                        sink@.len() == 0 && #[trigger] call_ensures(
                            transformer,
                            (input_bytes, &content_sections(section_headers@)[i], ctx, sink),
                            edits[i].new_size,
                        ) && edits[i].content == final(sink)@
                &&& (#[trigger] transformed(
                    input_bytes@,
                    *header,
                    program_headers@,
                    section_headers@,
                    ctx,
                    edits,
                )) is Ok
                &&& final(output)@ == old(output)@ + transformed(
                    input_bytes@,
                    *header,
                    program_headers@,
                    section_headers@,
                    ctx,
                    edits,
                )->Ok_0
            },
{
    let sections = if section_headers.len() == 0 {
        section_headers
    } else {
        slice_subrange(section_headers, 1, section_headers.len())
    };
    assert(sections@ =~= content_sections(section_headers@));
    let edits = edit_sections(input_bytes, sections, ctx, &transformer);
    proof {
        let views = edits_of(edits@);
        assert forall|i: int| #![trigger views[i]] 0 <= i < views.len() implies exists|
            sink: &mut Vec<u8>,
        |
            sink@.len() == 0 && #[trigger] call_ensures(
                transformer,
                (input_bytes, &content_sections(section_headers@)[i], ctx, sink),
                views[i].new_size,
            ) && views[i].content == final(sink)@ by {
            assert(views[i] == edits@[i]@);
        }
    }
    let res = write_transformed(
        input_bytes,
        header,
        program_headers,
        section_headers,
        ctx,
        edits.as_slice(),
        output,
    );
    match res {
        Ok(()) => {},
        Err(_) => vstd::pervasive::unreached(),
    }
}

} // verus!
