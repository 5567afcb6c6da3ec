//! Dynamic symbol resolution over the GNU hash table of an ELF64 image.
//!
//! The resolver answers, for a loaded object, whether a symbol of a given
//! name (and optionally a given version) is defined, and where its
//! symbol-table entry is. It is built from a single read-only byte image
//! plus the offsets a dynamic-section parser extracted; every table is
//! bounds-checked at construction, so lookups never touch memory outside
//! the image and never panic.
use vstd::prelude::*;

pub mod arch;
pub mod dynamic;
pub mod hash;
pub mod laws;
pub mod strtab;
pub mod symbol;
pub mod version;

verus! {

/// Construction-time failures: the image does not hold the tables the
/// dynamic section claims it does.
#[derive(Clone, Copy, PartialEq, Eq, Structural, Debug)]
pub enum ElfError {
    /// The GNU hash header or one of its arrays lies outside the image,
    /// or holds sizes no well-formed index can have.
    MalformedHashTable,
    /// The string table is empty, runs past the image, or does not end
    /// with a NUL byte.
    MalformedStringTable,
    /// A symbol record lies outside the image or names a string offset
    /// outside the string table.
    MalformedSymbolTable,
    /// A version table lies outside the image or names a string offset
    /// outside the string table.
    MalformedVersionTable,
}

} // verus!
