//! The dynamic string table: NUL-terminated byte strings keyed by offset.
use vstd::prelude::*;
use vstd::slice::slice_subrange;

use crate::ElfError;

verus! {

/// Position of the first NUL byte of `s` at or after `off`; `s.len()`
/// when no NUL follows.
pub open spec fn nul_pos(s: Seq<u8>, off: int) -> int
    decreases s.len() - off when 0 <= off <= s.len()
{
    if off >= s.len() {
        s.len() as int
    } else if s[off] == 0 {
        off
    } else {
        nul_pos(s, off + 1)
    }
}

/// An offset names a string only if a NUL terminator follows it within
/// the table.
pub open spec fn valid_name_offset(s: Seq<u8>, off: int) -> bool {
    0 <= off <= s.len() && nul_pos(s, off) < s.len()
}

/// The string a valid offset names: the bytes from `off` up to (not
/// including) the first NUL.
pub open spec fn name_at(s: Seq<u8>, off: int) -> Seq<u8> {
    s.subrange(off, nul_pos(s, off))
}

/// The first NUL at or after `off` is never before `off` nor past the
/// table's end.
pub proof fn lemma_nul_pos_bounds(s: Seq<u8>, off: int)
    requires
        0 <= off <= s.len(),
    ensures
        off <= nul_pos(s, off) <= s.len(),
    decreases s.len() - off,
{
    if off < s.len() && s[off] != 0 {
        lemma_nul_pos_bounds(s, off + 1);
    }
}

/// In a table whose last byte is NUL, every in-range offset names a
/// string.
pub proof fn lemma_terminated_table_valid(s: Seq<u8>, off: int)
    requires
        s.len() >= 1,
        s[s.len() - 1] == 0,
        0 <= off < s.len(),
    ensures
        valid_name_offset(s, off),
    decreases s.len() - off,
{
    if s[off] != 0 {
        lemma_terminated_table_valid(s, off + 1);
    }
}

/// The `.dynstr` section: a byte table addressed by offset.
pub struct ElfStringTable {
    pub data: Vec<u8>,
}

impl View for ElfStringTable {
    type V = Seq<u8>;

    open spec fn view(&self) -> Seq<u8> {
        self.data@
    }
}

impl ElfStringTable {
    /// A table is served only when it ends in a NUL byte, so that every
    /// in-range offset names a terminated string.
    pub open spec fn wf(self) -> bool {
        self@.len() >= 1 && self@[self@.len() - 1] == 0
    }

    pub fn new(data: Vec<u8>) -> (r: Self)
        ensures
            r@ == data@,
    {
        ElfStringTable { data }
    }

    /// Number of bytes in the table.
    pub fn len(&self) -> (r: usize)
        ensures
            r == self@.len(),
    {
        self.data.len()
    }

    /// The NUL-terminated string starting at `offset`, or an error when
    /// `offset` is out of range or no NUL follows it.
    pub fn get(&self, offset: usize) -> (r: Result<&[u8], ElfError>)
        ensures
            match r {
                Ok(name) => valid_name_offset(self@, offset as int) && name@ == name_at(
                    self@,
                    offset as int,
                ),
                Err(e) => e == ElfError::MalformedStringTable && !valid_name_offset(
                    self@,
                    offset as int,
                ),
            },
    {
        if offset > self.data.len() {
            return Err(ElfError::MalformedStringTable);
        }
        let mut end: usize = offset;
        while end < self.data.len() && self.data[end] != 0
            invariant
                offset <= end <= self@.len(),
                nul_pos(self@, offset as int) == nul_pos(self@, end as int),
            decreases self@.len() - end,
        {
            end = end + 1;
        }
        if end == self.data.len() {
            assert(nul_pos(self@, offset as int) == self@.len());
            return Err(ElfError::MalformedStringTable);
        }
        assert(nul_pos(self@, offset as int) == end);
        Ok(slice_subrange(self.data.as_slice(), offset, end))
    }

    /// Whether the string at a valid `offset` equals `name` byte for
    /// byte.
    pub fn name_matches(&self, offset: usize, name: &[u8]) -> (r: bool)
        requires
            valid_name_offset(self@, offset as int),
        ensures
            r == (name_at(self@, offset as int) == name@),
    {
        let stored = match self.get(offset) {
            Ok(s) => s,
            Err(_) => {
                return vstd::pervasive::unreached();
            },
        };
        if stored.len() != name.len() {
            proof {
                assert(name_at(self@, offset as int) != name@) by {
                    assert(stored@.len() != name@.len());
                }
            }
            return false;
        }
        let mut i: usize = 0;
        while i < stored.len()
            invariant
                stored@ == name_at(self@, offset as int),
                stored@.len() == name@.len(),
                0 <= i <= stored@.len(),
                forall|j: int| 0 <= j < i ==> stored@[j] == name@[j],
            decreases stored@.len() - i,
        {
            if stored[i] != name[i] {
                return false;
            }
            i = i + 1;
        }
        proof {
            assert(stored@ =~= name@);
        }
        true
    }
}

} // verus!
