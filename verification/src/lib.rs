//! Layout verification and relayout of ELF images.
//!
//! An ELF file is edited by producing a new image in which single sections
//! have new content. Every offset, size and program header that depends on a
//! section that changed is computed anew, so that the image stays consistent.
//!
//! * [`elf`] holds the records of the format as plain values.
//! * [`codec`] packs those records into bytes.
//! * [`structure`] checks that an input has the layout that is supported.
//! * [`transformer`] plans the new layout and writes the new image.
//! * [`inspect`] looks names up in string and symbol tables.
//! * [`modify`] holds the edits that are built on the relayout.
//! * [`args`] holds the command line as plain values.

pub mod args;
pub mod codec;
pub mod elf;
pub mod inspect;
pub mod modify;
pub mod structure;
pub mod transformer;
