//! Core of a user-mode emulator for 32-bit ARM programs: a paged,
//! permission-checked memory subsystem, a fetch-decode-execute CPU engine,
//! and an ELF32 loader that populates memory from a binary image.

pub mod cpu;
pub mod elf32;
pub mod mem;
