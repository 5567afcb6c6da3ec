//! The symbol-versioning overlay: per-symbol version indices plus the
//! version definitions and requirements of the object.
use vstd::prelude::*;

use crate::hash::read_u16;
use crate::hash::read_u32;
use crate::hash::u16_at;
use crate::hash::u32_at;
use crate::strtab::name_at;
use crate::ElfError;

verus! {

/// The per-symbol version index has its high bit stolen as the *hidden*
/// marker; the low fifteen bits are the index proper.
pub const VERSYM_HIDDEN: u16 = 0x8000;

pub const VERSYM_INDEX_MASK: u16 = 0x7fff;

/// One exported version: its index in the per-symbol array and the
/// string-table offset of its name.
#[derive(Clone, Copy, PartialEq, Eq, Structural, Debug)]
pub struct VersionDef {
    pub ndx: u16,
    pub name_off: u32,
}

/// One imported version: the index symbols of this object refer to it
/// by, and the string-table offset of its name.
#[derive(Clone, Copy, PartialEq, Eq, Structural, Debug)]
pub struct VersionNeed {
    pub idx: u16,
    pub name_off: u32,
}

/// The first definition whose (masked) index equals `vnum`.
pub open spec fn spec_find_def(defs: Seq<VersionDef>, vnum: u16) -> Option<VersionDef>
    decreases defs.len(),
{
    if defs.len() == 0 {
        None
    } else if defs[0].ndx & VERSYM_INDEX_MASK == vnum {
        Some(defs[0])
    } else {
        spec_find_def(defs.drop_first(), vnum)
    }
}

/// The first requirement whose (masked) index equals `vnum`.
pub open spec fn spec_find_need(needs: Seq<VersionNeed>, vnum: u16) -> Option<VersionNeed>
    decreases needs.len(),
{
    if needs.len() == 0 {
        None
    } else if needs[0].idx & VERSYM_INDEX_MASK == vnum {
        Some(needs[0])
    } else {
        spec_find_need(needs.drop_first(), vnum)
    }
}

/// A found definition is one of the definitions searched.
pub proof fn lemma_find_def_in(defs: Seq<VersionDef>, vnum: u16)
    requires
        spec_find_def(defs, vnum) is Some,
    ensures
        defs.contains(spec_find_def(defs, vnum)->Some_0),
    decreases defs.len(),
{
    if defs[0].ndx & VERSYM_INDEX_MASK != vnum {
        lemma_find_def_in(defs.drop_first(), vnum);
        let d = spec_find_def(defs, vnum)->Some_0;
        let i = choose|i: int| 0 <= i < defs.drop_first().len() && defs.drop_first()[i] == d;
        assert(defs[i + 1] == d);
    }
}

/// A found requirement is one of the requirements searched.
pub proof fn lemma_find_need_in(needs: Seq<VersionNeed>, vnum: u16)
    requires
        spec_find_need(needs, vnum) is Some,
    ensures
        needs.contains(spec_find_need(needs, vnum)->Some_0),
    decreases needs.len(),
{
    if needs[0].idx & VERSYM_INDEX_MASK != vnum {
        lemma_find_need_in(needs.drop_first(), vnum);
        let d = spec_find_need(needs, vnum)->Some_0;
        let i = choose|i: int| 0 <= i < needs.drop_first().len() && needs.drop_first()[i] == d;
        assert(needs[i + 1] == d);
    }
}

/// Versioning data of one object: `.gnu.version` indices plus the
/// parsed `.gnu.version_d` and `.gnu.version_r` tables.
pub struct ElfVersion {
    pub version_ids: Vec<u16>,
    pub defs: Vec<VersionDef>,
    pub needs: Vec<VersionNeed>,
}

impl ElfVersion {
    /// Every name offset the tables carry points into the string table.
    pub open spec fn wf(&self, strtab_len: int) -> bool {
        &&& forall|i: int|
            0 <= i < self.defs@.len() ==> (#[trigger] self.defs@[i]).name_off < strtab_len
        &&& forall|i: int|
            0 <= i < self.needs@.len() ==> (#[trigger] self.needs@[i]).name_off < strtab_len
    }

    /// Search of the definition table, first match wins.
    pub fn find_def(&self, vnum: u16) -> (r: Option<VersionDef>)
        ensures
            r == spec_find_def(self.defs@, vnum),
    {
        let mut i: usize = 0;
        proof {
            assert(self.defs@.skip(0) =~= self.defs@);
        }
        while i < self.defs.len()
            invariant
                0 <= i <= self.defs@.len(),
                spec_find_def(self.defs@, vnum) == spec_find_def(self.defs@.skip(i as int), vnum),
            decreases self.defs@.len() - i,
        {
            proof {
                assert(self.defs@.skip(i as int)[0] == self.defs@[i as int]);
            }
            let d = self.defs[i];
            if d.ndx & VERSYM_INDEX_MASK == vnum {
                return Some(d);
            }
            proof {
                assert(self.defs@.skip(i as int).drop_first() =~= self.defs@.skip(i + 1));
            }
            i = i + 1;
        }
        None
    }

    /// Search of the requirement table, first match wins.
    pub fn find_need(&self, vnum: u16) -> (r: Option<VersionNeed>)
        ensures
            r == spec_find_need(self.needs@, vnum),
    {
        let mut i: usize = 0;
        proof {
            assert(self.needs@.skip(0) =~= self.needs@);
        }
        while i < self.needs.len()
            invariant
                0 <= i <= self.needs@.len(),
                spec_find_need(self.needs@, vnum) == spec_find_need(
                    self.needs@.skip(i as int),
                    vnum,
                ),
            decreases self.needs@.len() - i,
        {
            proof {
                assert(self.needs@.skip(i as int)[0] == self.needs@[i as int]);
            }
            let d = self.needs[i];
            if d.idx & VERSYM_INDEX_MASK == vnum {
                return Some(d);
            }
            proof {
                assert(self.needs@.skip(i as int).drop_first() =~= self.needs@.skip(i + 1));
            }
            i = i + 1;
        }
        None
    }
}

/// The version-match matrix. A symbol whose version index is 0 is
/// local and never matches. Index 1 is the unversioned global scope:
/// it satisfies only queries that name no version. Higher indices name
/// a defined version: a query without a version accepts any such
/// symbol that is not hidden, and a query with a version accepts
/// exactly the symbols whose defining version bears that name. Without
/// an overlay every symbol behaves as index 1.
pub open spec fn spec_check_match(
    version: Option<ElfVersion>,
    strtab: Seq<u8>,
    idx: int,
    required: Option<Seq<u8>>,
) -> bool {
    match version {
        None => required is None,
        Some(v) => {
            let vidx = v.version_ids@[idx];
            let vnum = vidx & VERSYM_INDEX_MASK;
            if vnum == 0 {
                false
            } else if vnum == 1 {
                required is None
            } else {
                match required {
                    None => vidx & VERSYM_HIDDEN == 0,
                    Some(req) => match spec_find_def(v.defs@, vnum) {
                        Some(d) => name_at(strtab, d.name_off as int) == req,
                        None => false,
                    },
                }
            }
        },
    }
}

/// The version a symbol requires of its defining object: the name of
/// the requirement entry its version index points at; nothing for
/// local or unversioned symbols, or when the image names no such
/// entry.
pub open spec fn spec_requirement(
    version: Option<ElfVersion>,
    strtab: Seq<u8>,
    idx: int,
) -> Option<Seq<u8>> {
    match version {
        None => None,
        Some(v) => {
            let vnum = v.version_ids@[idx] & VERSYM_INDEX_MASK;
            if vnum < 2 {
                None
            } else {
                match spec_find_need(v.needs@, vnum) {
                    Some(n) => Some(name_at(strtab, n.name_off as int)),
                    None => None,
                }
            }
        },
    }
}

/// `Some(prefix + rest)` when the rest of a parse succeeded, `None`
/// when it failed.
pub open spec fn concat_defs(prefix: Seq<VersionDef>, rest: Option<Seq<VersionDef>>) -> Option<
    Seq<VersionDef>,
> {
    match rest {
        Some(s) => Some(prefix + s),
        None => None,
    }
}

pub open spec fn concat_needs(prefix: Seq<VersionNeed>, rest: Option<Seq<VersionNeed>>) -> Option<
    Seq<VersionNeed>,
> {
    match rest {
        Some(s) => Some(prefix + s),
        None => None,
    }
}

/// The definitions stored at `off`: `count` records linked by their
/// `next` words, each contributing its index and the name offset of
/// its first auxiliary. `None` when a record leaves the image, has no
/// auxiliary, or names a string outside the string table.
pub open spec fn spec_parse_verdef(
    data: Seq<u8>,
    off: int,
    count: int,
    strtab_len: int,
) -> Option<Seq<VersionDef>>
    decreases count,
{
    if count <= 0 {
        Some(Seq::empty())
    } else if !(0 <= off && off + 20 <= data.len()) {
        None
    } else {
        let ndx = u16_at(data, off + 4);
        let cnt = u16_at(data, off + 6);
        let aux = u32_at(data, off + 12);
        let next = u32_at(data, off + 16);
        if cnt == 0 {
            None
        } else if aux > data.len() - off {
            None
        } else if !(off + aux + 8 <= data.len()) {
            None
        } else {
            let name = u32_at(data, off + aux);
            if name >= strtab_len {
                None
            } else {
                let d = VersionDef { ndx, name_off: name };
                if count == 1 {
                    Some(seq![d])
                } else if next == 0 || next > data.len() - off {
                    None
                } else {
                    concat_defs(seq![d], spec_parse_verdef(data, off + next, count - 1, strtab_len))
                }
            }
        }
    }
}

/// The auxiliaries of one requirement record: `cnt` of them starting
/// at `aux_off`, linked by their `next` words, each contributing its
/// version index and name offset. `None` when one leaves the image or
/// names a string outside the string table.
pub open spec fn spec_verneed_auxes(
    data: Seq<u8>,
    aux_off: int,
    cnt: int,
    strtab_len: int,
) -> Option<Seq<VersionNeed>>
    decreases cnt,
{
    if cnt <= 0 {
        Some(Seq::empty())
    } else if !(0 <= aux_off && aux_off + 16 <= data.len()) {
        None
    } else {
        let idx = u16_at(data, aux_off + 6);
        let name = u32_at(data, aux_off + 8);
        let next = u32_at(data, aux_off + 12);
        if name >= strtab_len {
            None
        } else {
            let n = VersionNeed { idx, name_off: name };
            if cnt == 1 {
                Some(seq![n])
            } else if next == 0 || next > data.len() - aux_off {
                None
            } else {
                concat_needs(
                    seq![n],
                    spec_verneed_auxes(data, aux_off + next, cnt - 1, strtab_len),
                )
            }
        }
    }
}

/// The requirements stored at `off`: `count` records linked by their
/// `next` words, each contributing all of its auxiliaries in order.
pub open spec fn spec_parse_verneed(
    data: Seq<u8>,
    off: int,
    count: int,
    strtab_len: int,
) -> Option<Seq<VersionNeed>>
    decreases count,
{
    if count <= 0 {
        Some(Seq::empty())
    } else if !(0 <= off && off + 16 <= data.len()) {
        None
    } else {
        let cnt = u16_at(data, off + 2);
        let aux = u32_at(data, off + 8);
        let next = u32_at(data, off + 12);
        if aux > data.len() - off {
            None
        } else {
            match spec_verneed_auxes(data, off + aux, cnt as int, strtab_len) {
                None => None,
                Some(s1) => {
                    if count == 1 {
                        Some(s1)
                    } else if next == 0 || next > data.len() - off {
                        None
                    } else {
                        concat_needs(s1, spec_parse_verneed(data, off + next, count - 1, strtab_len))
                    }
                },
            }
        }
    }
}

/// Reads the `.gnu.version` array: one 16-bit index per symbol.
pub fn parse_version_ids(data: &[u8], off: usize, count: usize) -> (r: Result<Vec<u16>, ElfError>)
    requires
        count <= u32::MAX,
    ensures
        match r {
            Ok(ids) => {
                &&& off + 2 * count <= data@.len()
                &&& ids@.len() == count as int
                &&& forall|i: int| 0 <= i < count ==> ids@[i] == u16_at(data@, off + 2 * i)
            },
            Err(e) => {
                &&& e == ElfError::MalformedVersionTable
                &&& off + 2 * count > data@.len()
            },
        },
{
    let data_len: usize = data.len();
    if off > data_len || ((2 * count as u64) > (data_len - off) as u64) {
        return Err(ElfError::MalformedVersionTable);
    }
    let mut ids: Vec<u16> = Vec::new();
    let mut i: usize = 0;
    while i < count
        invariant
            data_len == data@.len(),
            off + 2 * count <= data@.len(),
            0 <= i <= count,
            ids@.len() == i as int,
            forall|t: int| 0 <= t < i ==> ids@[t] == u16_at(data@, off + 2 * t),
        decreases count - i,
    {
        ids.push(read_u16(data, off + 2 * i));
        i = i + 1;
    }
    Ok(ids)
}

/// Walks the `.gnu.version_r` table: `count` requirement records, each
/// carrying its auxiliary list, linked by byte offsets. Collects one
/// entry per auxiliary, with its version index and name offset, and
/// rejects records that leave the image or name strings outside the
/// string table.
/// Where a requirement entry's parse stands once its first auxiliaries
/// are collected into `prefix`: the remaining auxiliaries `auxes`, then
/// the entries after this one.
pub open spec fn verneed_entry_state(
    data: Seq<u8>,
    prefix: Seq<VersionNeed>,
    auxes: Option<Seq<VersionNeed>>,
    entry_off: int,
    next: u32,
    remaining: int,
    strtab_len: int,
) -> Option<Seq<VersionNeed>> {
    match auxes {
        None => None,
        Some(s1) => {
            if remaining == 1 {
                Some(prefix + s1)
            } else if next == 0 || next > data.len() - entry_off {
                None
            } else {
                concat_needs(
                    prefix + s1,
                    spec_parse_verneed(data, entry_off + next, remaining - 1, strtab_len),
                )
            }
        },
    }
}

/// Moving an auxiliary from the pending sequence to the prefix leaves
/// the entry's parse state unchanged.
pub proof fn lemma_entry_state_prefix(
    data: Seq<u8>,
    prefix1: Seq<VersionNeed>,
    s1: Seq<VersionNeed>,
    prefix2: Seq<VersionNeed>,
    s2: Seq<VersionNeed>,
    entry_off: int,
    next: u32,
    remaining: int,
    strtab_len: int,
)
    requires
        prefix1 + s1 == prefix2 + s2,
    ensures
        verneed_entry_state(data, prefix1, Some(s1), entry_off, next, remaining, strtab_len)
            == verneed_entry_state(data, prefix2, Some(s2), entry_off, next, remaining, strtab_len),
{
}

pub fn parse_verneed(data: &[u8], off: usize, count: usize, strtab_len: usize) -> (r: Result<
    Vec<VersionNeed>,
    ElfError,
>)
    ensures
        match r {
            Ok(needs) => {
                &&& spec_parse_verneed(data@, off as int, count as int, strtab_len as int) == Some(
                    needs@,
                )
                &&& forall|i: int|
                    0 <= i < needs@.len() ==> (#[trigger] needs@[i]).name_off < strtab_len
            },
            Err(e) => {
                &&& e == ElfError::MalformedVersionTable
                &&& spec_parse_verneed(data@, off as int, count as int, strtab_len as int) is None
            },
        },
{
    let ghost total = spec_parse_verneed(data@, off as int, count as int, strtab_len as int);
    let data_len: usize = data.len();
    if count > 0 && (data_len < 16 || off > data_len - 16) {
        return Err(ElfError::MalformedVersionTable);
    }
    let mut needs: Vec<VersionNeed> = Vec::new();
    let mut entry_off: usize = off;
    let mut e: usize = 0;
    proof {
        if total is Some {
            assert(Seq::<VersionNeed>::empty() + total->Some_0 =~= total->Some_0);
        }
    }
    while e < count
        invariant
            data_len == data@.len(),
            e < count ==> entry_off <= data@.len(),
            0 <= e <= count,
            total == spec_parse_verneed(data@, off as int, count as int, strtab_len as int),
            total == concat_needs(
                needs@,
                spec_parse_verneed(data@, entry_off as int, count - e, strtab_len as int),
            ),
            forall|i: int| 0 <= i < needs@.len() ==> (#[trigger] needs@[i]).name_off < strtab_len,
        decreases count - e,
    {
        let ghost entry_rest = spec_parse_verneed(
            data@,
            entry_off as int,
            count - e,
            strtab_len as int,
        );
        if data_len < 16 || entry_off > data_len - 16 {
            return Err(ElfError::MalformedVersionTable);
        }
        let vn_cnt: u16 = read_u16(data, entry_off + 2);
        let vn_aux: u32 = read_u32(data, entry_off + 8);
        let vn_next: u32 = read_u32(data, entry_off + 12);
        if vn_aux as u64 > (data_len - entry_off) as u64 {
            return Err(ElfError::MalformedVersionTable);
        }
        let mut aux_off: usize = entry_off + vn_aux as usize;
        let mut a: usize = 0;
        proof {
            let auxes = spec_verneed_auxes(
                data@,
                aux_off as int,
                vn_cnt as int,
                strtab_len as int,
            );
            if auxes is Some {
                let rest2 = spec_parse_verneed(
                    data@,
                    entry_off + vn_next,
                    count - e - 1,
                    strtab_len as int,
                );
                if count - e > 1 && rest2 is Some {
                    assert(needs@ + (auxes->Some_0 + rest2->Some_0) =~= (needs@ + auxes->Some_0)
                        + rest2->Some_0);
                }
            }
        }
        while a < vn_cnt as usize
            invariant
                data_len == data@.len(),
                e < count,
                entry_off + 16 <= data@.len(),
                0 <= a <= vn_cnt as usize,
                a < vn_cnt as usize ==> aux_off <= data@.len(),
                total == spec_parse_verneed(data@, off as int, count as int, strtab_len as int),
                total == verneed_entry_state(
                    data@,
                    needs@,
                    spec_verneed_auxes(
                        data@,
                        aux_off as int,
                        vn_cnt as int - a as int,
                        strtab_len as int,
                    ),
                    entry_off as int,
                    vn_next,
                    count - e,
                    strtab_len as int,
                ),
                forall|i: int|
                    0 <= i < needs@.len() ==> (#[trigger] needs@[i]).name_off < strtab_len,
            decreases vn_cnt as int - a,
        {
            let ghost aux_rest = spec_verneed_auxes(
                data@,
                aux_off as int,
                vn_cnt as int - a as int,
                strtab_len as int,
            );
            if data_len < 16 || aux_off > data_len - 16 {
                return Err(ElfError::MalformedVersionTable);
            }
            let vna_other: u16 = read_u16(data, aux_off + 6);
            let vna_name: u32 = read_u32(data, aux_off + 8);
            let vna_next: u32 = read_u32(data, aux_off + 12);
            if vna_name as u64 >= strtab_len as u64 {
                return Err(ElfError::MalformedVersionTable);
            }
            let item = VersionNeed { idx: vna_other, name_off: vna_name };
            let ghost prev = needs@;
            needs.push(item);
            a = a + 1;
            if a < vn_cnt as usize {
                if vna_next == 0 || vna_next as u64 > (data_len - aux_off) as u64 {
                    return Err(ElfError::MalformedVersionTable);
                }
                proof {
                    let tail = spec_verneed_auxes(
                        data@,
                        aux_off + vna_next,
                        vn_cnt as int - a as int,
                        strtab_len as int,
                    );
                    assert(needs@ =~= prev + seq![item]);
                    if tail is Some {
                        assert(aux_rest == Some(seq![item] + tail->Some_0));
                        assert(prev + (seq![item] + tail->Some_0) =~= needs@ + tail->Some_0);
                        lemma_entry_state_prefix(
                            data@,
                            prev,
                            seq![item] + tail->Some_0,
                            needs@,
                            tail->Some_0,
                            entry_off as int,
                            vn_next,
                            count - e,
                            strtab_len as int,
                        );
                    }
                }
                aux_off = aux_off + vna_next as usize;
            } else {
                proof {
                    assert(aux_rest == Some(seq![item]));
                    assert(needs@ =~= prev + seq![item]);
                    assert(needs@ + Seq::<VersionNeed>::empty() =~= prev + seq![item]);
                    lemma_entry_state_prefix(
                        data@,
                        prev,
                        seq![item],
                        needs@,
                        Seq::<VersionNeed>::empty(),
                        entry_off as int,
                        vn_next,
                        count - e,
                        strtab_len as int,
                    );
                }
            }
        }
        e = e + 1;
        if e < count {
            if vn_next == 0 || vn_next as u64 > (data_len - entry_off) as u64 {
                return Err(ElfError::MalformedVersionTable);
            }
            proof {
                assert(needs@ + Seq::<VersionNeed>::empty() =~= needs@);
            }
            entry_off = entry_off + vn_next as usize;
        } else {
            proof {
                assert(needs@ + Seq::<VersionNeed>::empty() =~= needs@);
            }
        }
    }
    proof {
        assert(needs@ + Seq::<VersionNeed>::empty() =~= needs@);
    }
    Ok(needs)
}

/// Walks the `.gnu.version_d` table: `count` definition records linked
/// by byte offsets, each naming its version through its first
/// auxiliary. Collects the version index and name offset of every
/// definition, and rejects records that leave the image or name
/// strings outside the string table.
pub fn parse_verdef(data: &[u8], off: usize, count: usize, strtab_len: usize) -> (r: Result<
    Vec<VersionDef>,
    ElfError,
>)
    ensures
        match r {
            Ok(defs) => {
                &&& spec_parse_verdef(data@, off as int, count as int, strtab_len as int) == Some(
                    defs@,
                )
                &&& forall|i: int|
                    0 <= i < defs@.len() ==> (#[trigger] defs@[i]).name_off < strtab_len
            },
            Err(e) => {
                &&& e == ElfError::MalformedVersionTable
                &&& spec_parse_verdef(data@, off as int, count as int, strtab_len as int) is None
            },
        },
{
    let ghost total = spec_parse_verdef(data@, off as int, count as int, strtab_len as int);
    let data_len: usize = data.len();
    if count > 0 && (data_len < 20 || off > data_len - 20) {
        return Err(ElfError::MalformedVersionTable);
    }
    let mut defs: Vec<VersionDef> = Vec::new();
    let mut entry_off: usize = off;
    let mut e: usize = 0;
    proof {
        if total is Some {
            assert(Seq::<VersionDef>::empty() + total->Some_0 =~= total->Some_0);
        }
    }
    while e < count
        invariant
            data_len == data@.len(),
            e < count ==> entry_off <= data@.len(),
            0 <= e <= count,
            total == spec_parse_verdef(data@, off as int, count as int, strtab_len as int),
            total == concat_defs(
                defs@,
                spec_parse_verdef(
                    data@,
                    entry_off as int,
                    count - e,
                    strtab_len as int,
                ),
            ),
            forall|i: int| 0 <= i < defs@.len() ==> (#[trigger] defs@[i]).name_off < strtab_len,
        decreases count - e,
    {
        let ghost rest = spec_parse_verdef(data@, entry_off as int, count - e, strtab_len as int);
        if data_len < 20 || entry_off > data_len - 20 {
            return Err(ElfError::MalformedVersionTable);
        }
        let vd_ndx: u16 = read_u16(data, entry_off + 4);
        let vd_cnt: u16 = read_u16(data, entry_off + 6);
        let vd_aux: u32 = read_u32(data, entry_off + 12);
        let vd_next: u32 = read_u32(data, entry_off + 16);
        if vd_cnt == 0 {
            return Err(ElfError::MalformedVersionTable);
        }
        if vd_aux as u64 > (data_len - entry_off) as u64 {
            return Err(ElfError::MalformedVersionTable);
        }
        let aux_off: usize = entry_off + vd_aux as usize;
        if data_len < 8 || aux_off > data_len - 8 {
            return Err(ElfError::MalformedVersionTable);
        }
        let vda_name: u32 = read_u32(data, aux_off);
        if vda_name as u64 >= strtab_len as u64 {
            return Err(ElfError::MalformedVersionTable);
        }
        let record = VersionDef { ndx: vd_ndx, name_off: vda_name };
        let ghost prev = defs@;
        proof {
            assert(rest == if count - e == 1 {
                Some(seq![record])
            } else if vd_next == 0 || vd_next > data@.len() - entry_off {
                None::<Seq<VersionDef>>
            } else {
                concat_defs(
                    seq![record],
                    spec_parse_verdef(
                        data@,
                        entry_off + vd_next,
                        count - e - 1,
                        strtab_len as int,
                    ),
                )
            });
        }
        defs.push(record);
        e = e + 1;
        if e < count {
            if vd_next == 0 || vd_next as u64 > (data_len - entry_off) as u64 {
                return Err(ElfError::MalformedVersionTable);
            }
            proof {
                let tail = spec_parse_verdef(
                    data@,
                    entry_off + vd_next,
                    count - e,
                    strtab_len as int,
                );
                assert(defs@ =~= prev + seq![record]);
                if tail is Some {
                    assert(prev + (seq![record] + tail->Some_0) =~= defs@ + tail->Some_0);
                }
            }
            entry_off = entry_off + vd_next as usize;
        } else {
            proof {
                assert(defs@ =~= prev + seq![record]);
                assert(defs@ + Seq::<VersionDef>::empty() =~= defs@);
            }
        }
    }
    proof {
        assert(defs@ + Seq::<VersionDef>::empty() =~= defs@);
    }
    Ok(defs)
}

} // verus!
