//! Relocation-type constants for the architectures the surrounding
//! relocation engine targets. The resolver itself is
//! architecture-independent.
pub mod riscv64;
pub mod x86_64;
