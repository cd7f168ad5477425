//! Verified logic of a small x86 bootloader: the FAT16 root-directory
//! search and cluster-chain loader, the ATA PIO read command, early debug
//! output and the text-mode VGA screen model.
use vstd::prelude::*;

pub mod ata;
pub mod debug_text;
pub mod fat;
pub mod vga_buffer;
pub mod vga_video_buffer;

verus! {

/// The ELF file header (32-bit layout).
#[derive(Debug, Clone, Copy)]
pub struct ElfHeader {
    /// Identification bytes.
    pub e_ident: [u8; 16],
    /// Object file type.
    pub e_type: u16,
    /// Target architecture.
    pub e_machine: u16,
    /// ELF version.
    pub e_version: u32,
    /// Entry point address.
    pub e_entry: u32,
    /// Offset of the program header table.
    pub e_phoff: u32,
    /// Offset of the section header table.
    pub e_shoff: u32,
    /// Processor-specific flags.
    pub e_flags: u32,
    /// Size of this header.
    pub e_ehsize: u16,
    /// Size of one program header entry.
    pub e_phentsize: u16,
    /// Number of program header entries.
    pub e_phnum: u16,
    /// Size of one section header entry.
    pub e_shentsize: u16,
    /// Number of section header entries.
    pub e_shnum: u16,
    /// Index of the section name string table.
    pub e_shstrndx: u16,
}

/// One entry of the ELF program header table (32-bit layout).
#[derive(Debug, Clone, Copy)]
pub struct ProgramHeader {
    /// Segment type.
    pub p_type: u32,
    /// Offset of the segment in the file.
    pub p_offset: u32,
    /// Virtual address of the segment.
    pub p_vaddr: u32,
    /// Physical address of the segment.
    pub p_paddr: u32,
    /// Size of the segment in the file.
    pub p_filesz: u32,
    /// Size of the segment in memory.
    pub p_memsz: u32,
    /// Segment flags.
    pub p_flags: u32,
    /// Segment alignment.
    pub p_align: u32,
}

} // verus!
