//! The records of an ELF file, as plain values.
//!
//! Every record is the unified form: fields that are 32 bits wide in a 32-bit
//! container are held in 64 bits here.

use vstd::prelude::*;

verus! {

/// Width of the container: `Little` is the 32-bit format, `Big` the 64-bit one.
#[derive(Clone, Copy, Debug, PartialEq, Eq, Structural)]
pub enum Container {
    Little,
    Big,
}

/// Byte order of the multi-byte fields.
#[derive(Clone, Copy, Debug, PartialEq, Eq, Structural)]
pub enum Endian {
    Little,
    Big,
}

/// What decides how a record is laid out in bytes.
#[derive(Clone, Copy, Debug, PartialEq, Eq, Structural)]
pub struct Ctx {
    pub container: Container,
    pub le: Endian,
}

/// Index into `e_ident` of the byte that names the byte order.
pub const EI_DATA: usize = 5;

/// Value of `e_ident[EI_DATA]` for little endian.
pub const ELFDATA2LSB: u8 = 1;

/// Value of `e_ident[EI_DATA]` for big endian.
pub const ELFDATA2MSB: u8 = 2;

/// The file header.
#[derive(Clone, Copy, Debug, PartialEq, Eq)]
pub struct Header {
    pub e_ident: [u8; 16],
    pub e_type: u16,
    pub e_machine: u16,
    pub e_version: u32,
    pub e_entry: u64,
    /// Offset of the program header table.
    pub e_phoff: u64,
    /// Offset of the section header table.
    pub e_shoff: u64,
    pub e_flags: u32,
    pub e_ehsize: u16,
    /// Size of one program header.
    pub e_phentsize: u16,
    /// Number of program headers.
    pub e_phnum: u16,
    /// Size of one section header.
    pub e_shentsize: u16,
    /// Number of section headers.
    pub e_shnum: u16,
    pub e_shstrndx: u16,
}

impl Header {
    /// The header names a byte order that the codec knows.
    pub open spec fn names_byte_order(self) -> bool {
        self.e_ident[EI_DATA as int] == ELFDATA2LSB || self.e_ident[EI_DATA as int] == ELFDATA2MSB
    }

    /// Size in bytes of the program header table, as the header states it.
    pub open spec fn program_headers_size(self) -> int {
        self.e_phentsize as int * self.e_phnum as int
    }

    /// Size in bytes of the section header table, as the header states it.
    pub open spec fn section_headers_size(self) -> int {
        self.e_shentsize as int * self.e_shnum as int
    }
}

/// One region that the loader maps into memory.
#[derive(Clone, Copy, Debug, PartialEq, Eq, Structural)]
pub struct ProgramHeader {
    pub p_type: u32,
    pub p_flags: u32,
    /// Offset of the region in the file.
    pub p_offset: u64,
    pub p_vaddr: u64,
    pub p_paddr: u64,
    /// Size of the region in the file.
    pub p_filesz: u64,
    /// Size of the region in memory.
    pub p_memsz: u64,
    pub p_align: u64,
}

impl ProgramHeader {
    /// Offset just past the region in the file.
    pub open spec fn file_end(self) -> int {
        self.p_offset + self.p_filesz
    }
}

/// One named byte range of the file.
#[derive(Clone, Copy, Debug, PartialEq, Eq, Structural)]
pub struct SectionHeader {
    /// Offset of the name in the section name table.
    pub sh_name: usize,
    pub sh_type: u32,
    pub sh_flags: u64,
    pub sh_addr: u64,
    /// Offset of the range in the file.
    pub sh_offset: u64,
    /// Size of the range in bytes.
    pub sh_size: u64,
    pub sh_link: u32,
    pub sh_info: u32,
    /// Alignment of the range; 0 and 1 both mean none.
    pub sh_addralign: u64,
    pub sh_entsize: u64,
}

impl SectionHeader {
    /// Offset just past the range in the file.
    pub open spec fn end(self) -> int {
        self.sh_offset + self.sh_size
    }
}

/// One symbol table entry.
#[derive(Clone, Copy, Debug, PartialEq, Eq, Structural)]
pub struct Sym {
    /// Offset of the name in the string table.
    pub st_name: usize,
    pub st_info: u8,
    pub st_other: u8,
    pub st_shndx: usize,
    pub st_value: u64,
    pub st_size: u64,
}

} // verus!
