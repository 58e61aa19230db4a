//! ELF images: reading, checking and editing.

use vstd::prelude::*;

pub mod append;
pub mod append_laws;
pub mod error;
pub mod image;
pub mod layout;
pub mod layout_laws;
pub mod read;
pub mod read_laws;
pub mod segment_laws;

pub use error::{Error, Fault, Result};
pub use image::{is_aarch64, is_aarch64_prefix, load_file_end, parse, ElfImage};
pub use layout::{
    ElfLayout, LoadSegment, SectionHeader, PF_R, SHF_ALLOC, SHT_LOUSER, SHT_NOBITS, SHT_STRTAB,
};
pub use read::{
    align_up, checked_index, read_i64, read_u16, read_u32, read_u64, slice, slice_u64,
    usize_from_u64,
};

verus! {

/// ELF machine identifier for AArch64.
pub const AARCH64_MACHINE: u16 = 183;

/// Dynamic sections required by every restored AArch64 loader image.
pub const DYNAMIC_SECTION_NAMES: [&'static str; 7] = [
    ".dynsym",
    ".gnu.version",
    ".gnu.version_r",
    ".dynstr",
    ".rela.dyn",
    ".rela.plt",
    ".dynamic",
];

/// Supported dynamic symbol-hash sections. At least one must be present.
pub const SYMBOL_HASH_SECTION_NAMES: [&'static str; 2] = [".gnu.hash", ".hash"];

/// Dynamic sections needed to identify a protected image before extraction. Hash tables are
/// checked separately because either GNU or SysV hashing is valid.
pub const PROBE_SECTION_NAMES: [&'static str; 4] = [
    ".dynsym",
    ".dynstr",
    ".gnu.version",
    ".gnu.version_r",
];

/// Size of one dynamic symbol.
pub const ELF64_SYMBOL_SIZE: usize = 0x18;

/// Size of one relocation with addend.
pub const ELF64_RELA_SIZE: usize = 0x18;

/// Relocation: absolute 64-bit address of a symbol.
pub const R_AARCH64_ABS64: u32 = 0x101;

/// Relocation: global offset table entry.
pub const R_AARCH64_GLOB_DAT: u32 = 0x401;

/// Relocation: procedure linkage table slot.
pub const R_AARCH64_JUMP_SLOT: u32 = 0x402;

/// Relocation: address relative to the load base.
pub const R_AARCH64_RELATIVE: u32 = 0x403;

/// Version index of an unversioned global symbol.
pub const VER_NDX_GLOBAL: u16 = 1;

/// Dynamic tag: size of the procedure linkage relocations.
pub const DT_PLTRELSZ: u64 = 2;

/// Dynamic tag: SysV symbol hash table.
pub const DT_HASH: u64 = 4;

/// Dynamic tag: string table.
pub const DT_STRTAB: u64 = 5;

/// Dynamic tag: symbol table.
pub const DT_SYMTAB: u64 = 6;

/// Dynamic tag: relocations with addend.
pub const DT_RELA: u64 = 7;

/// Dynamic tag: size of the relocations with addend.
pub const DT_RELASZ: u64 = 8;

/// Dynamic tag: size of the string table.
pub const DT_STRSZ: u64 = 10;

/// Dynamic tag: procedure linkage relocations.
pub const DT_JMPREL: u64 = 23;

/// Dynamic tag: GNU symbol hash table.
pub const DT_GNU_HASH: u64 = 0x6fff_fef5;

/// Dynamic tag: symbol version table.
pub const DT_VERSYM: u64 = 0x6fff_fff0;

/// Dynamic tag: number of relative relocations.
pub const DT_RELACOUNT: u64 = 0x6fff_fff9;

/// Dynamic tag: required symbol versions.
pub const DT_VERNEED: u64 = 0x6fff_fffe;

} // verus!
