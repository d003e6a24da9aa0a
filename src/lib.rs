//! Decoding of the fixed-layout headers at the start of an ELF object file:
//! the file header, the first program header and the first section header.
//!
//! Every multi-byte field is read by place value in the byte order that the
//! file declares, every coded field is checked against its closed table, and
//! every failure comes back as a [`DecodeError`]: decoding never panics.
pub mod elf;
pub mod file_header;
pub mod program_header;
pub mod section_header;
pub mod utils;

pub use elf::Elf;
pub use file_header::{ElfMachine, ElfOsAbi, ElfType, FileHeader};
pub use program_header::{ProgramHeader, ProgramType};
pub use section_header::{SectionHeader, SectionHeaderFlags, SectionHeaderType};
pub use utils::{sum_offset, AddressWidth, ByteOrder, CodedField, DecodeError};
