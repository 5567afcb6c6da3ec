//! Relocation constants of the x86-64 psABI.
use vstd::prelude::*;

verus! {

pub const EM_ARCH: u16 = 62;

/// Dynamic thread vector pointers point at the start of each TLS block.
pub const TLS_DTV_OFFSET: usize = 0;

pub const REL_RELATIVE: u32 = 8;

pub const REL_GOT: u32 = 6;

pub const REL_DTPMOD: u32 = 16;

pub const REL_SYMBOLIC: u32 = 1;

pub const REL_JUMP_SLOT: u32 = 7;

pub const REL_DTPOFF: u32 = 17;

} // verus!
