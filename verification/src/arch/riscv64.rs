//! Relocation constants of the RISC-V 64 psABI.
use vstd::prelude::*;

verus! {

pub const EM_ARCH: u16 = 243;

/// Dynamic thread vector pointers point 0x800 past the start of each
/// TLS block.
pub const TLS_DTV_OFFSET: usize = 0x800;

pub const REL_RELATIVE: u32 = 3;

/// RISC-V has no GOT-data relocation of its own.
pub const REL_GOT: u32 = 0xffff_ffff;

pub const REL_DTPMOD: u32 = 6;

pub const REL_SYMBOLIC: u32 = 2;

pub const REL_JUMP_SLOT: u32 = 5;

pub const REL_DTPOFF: u32 = 9;

} // verus!
