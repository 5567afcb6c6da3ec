//! What the dynamic-section parser hands the resolver: byte offsets of
//! the tables inside one read-only image.
use vstd::prelude::*;

verus! {

/// Offsets (into the image the resolver is given) and sizes of the
/// tables a loaded object's dynamic section names. The parser has
/// already turned the section's absolute addresses into offsets.
#[derive(Clone, Copy, Debug)]
pub struct ElfDynamic {
    /// Offset of `.gnu.hash`.
    pub hashtab: usize,
    /// Offset of `.dynsym`.
    pub symtab: usize,
    /// Number of records in `.dynsym`.
    pub symtab_len: usize,
    /// Offset of `.dynstr`.
    pub strtab: usize,
    /// Number of bytes in `.dynstr`.
    pub strtab_size: usize,
    /// Offset of `.gnu.version`: one 16-bit index per symbol.
    pub version_ids: Option<usize>,
    /// Offset and record count of `.gnu.version_r`.
    pub verneed: Option<(usize, usize)>,
    /// Offset and record count of `.gnu.version_d`.
    pub verdef: Option<(usize, usize)>,
}

} // verus!
