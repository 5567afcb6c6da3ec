//! Symbol records, lookup queries, and the resolver itself.
use vstd::prelude::*;
use vstd::slice::slice_subrange;
use vstd::slice::slice_to_vec;

use crate::dynamic::ElfDynamic;
use crate::hash::read_u16;
use crate::hash::read_u32;
use crate::hash::read_u64;
use crate::hash::spec_gnu_hash;
use crate::hash::u16_at;
use crate::hash::u32_at;
use crate::hash::u64_at;
use crate::hash::ElfGnuHash;
use crate::strtab::lemma_terminated_table_valid;
use crate::strtab::name_at;
use crate::strtab::valid_name_offset;
use crate::strtab::ElfStringTable;
use crate::version::parse_verdef;
use crate::version::parse_verneed;
use crate::version::parse_version_ids;
use crate::version::spec_check_match;
use crate::version::spec_requirement;
use crate::version::ElfVersion;
use crate::version::VERSYM_HIDDEN;
use crate::version::VERSYM_INDEX_MASK;
use crate::ElfError;

verus! {

/// One ELF64 symbol record, with the fields of the ABI layout.
#[derive(Clone, Copy, PartialEq, Eq, Structural, Debug)]
pub struct ElfSymbol {
    pub st_name: u32,
    pub st_info: u8,
    pub st_other: u8,
    pub st_shndx: u16,
    pub st_value: u64,
    pub st_size: u64,
}

/// The symbol record stored at byte offset `off`, read as the ELF64
/// ABI lays it out.
pub open spec fn spec_symbol_at(data: Seq<u8>, off: int) -> ElfSymbol {
    ElfSymbol {
        st_name: u32_at(data, off),
        st_info: data[off + 4],
        st_other: data[off + 5],
        st_shndx: u16_at(data, off + 6),
        st_value: u64_at(data, off + 8),
        st_size: u64_at(data, off + 16),
    }
}

/// A lookup query: the symbol's name and, when the caller resolves a
/// versioned reference, the required version's name.
pub struct SymbolInfo<'a> {
    pub name: &'a [u8],
    pub version: Option<&'a [u8]>,
}

impl<'a> SymbolInfo<'a> {
    /// The required version as a byte string, when one is carried.
    pub open spec fn version_view(&self) -> Option<Seq<u8>> {
        match self.version {
            Some(v) => Some(v@),
            None => None,
        }
    }

    /// A query for `name` with no version requirement.
    pub fn new(name: &'a [u8]) -> (r: Self)
        ensures
            r.name@ == name@,
            r.version_view() is None,
    {
        SymbolInfo { name, version: None }
    }

    /// A query for `name` at version `version`.
    pub fn new_with_version(name: &'a [u8], version: &'a [u8]) -> (r: Self)
        ensures
            r.name@ == name@,
            r.version_view() == Some(version@),
    {
        SymbolInfo { name, version: Some(version) }
    }
}

/// Everything the image must satisfy for construction to succeed,
/// version tables aside: a hash index whose arrays fit, a non-empty
/// NUL-terminated string table, a symbol table that fits, every symbol
/// name inside the string table, and every bucket either empty or
/// pointing at a chained symbol.
pub open spec fn spec_tables_ok(image: Seq<u8>, d: ElfDynamic) -> bool {
    let base = u32_at(image, d.hashtab + 4);
    let nbloom = u32_at(image, d.hashtab + 8);
    let buckets_off = d.hashtab + 16 + 8 * (nbloom as int);
    &&& d.symtab_len <= u32::MAX
    &&& ElfGnuHash::header_ok(image, d.hashtab as int, d.symtab_len as int)
    &&& d.strtab_size >= 1
    &&& d.strtab + d.strtab_size <= image.len()
    &&& image[d.strtab + d.strtab_size - 1] == 0
    &&& d.symtab + 24 * (d.symtab_len as int) <= image.len()
    &&& forall|i: int|
        0 <= i < d.symtab_len ==> (#[trigger] spec_symbol_at(image, d.symtab + 24 * i)).st_name
            < d.strtab_size
    &&& forall|b: int|
        0 <= b < u32_at(image, d.hashtab as int) ==> {
            let s = #[trigger] u32_at(image, buckets_off + 4 * b);
            s == 0 || (base <= s && (s as int) < d.symtab_len)
        }
}

/// Everything construction checks: the tables, and (when the image
/// carries them) version arrays that fit the image and parse.
pub open spec fn spec_new_ok(image: Seq<u8>, d: ElfDynamic) -> bool {
    &&& spec_tables_ok(image, d)
    &&& match d.version_ids {
        None => true,
        Some(vo) => {
            &&& vo + 2 * (d.symtab_len as int) <= image.len()
            &&& match d.verneed {
                Some((o, c)) => crate::version::spec_parse_verneed(
                    image,
                    o as int,
                    c as int,
                    d.strtab_size as int,
                ) is Some,
                None => true,
            }
            &&& match d.verdef {
                Some((o, c)) => crate::version::spec_parse_verdef(
                    image,
                    o as int,
                    c as int,
                    d.strtab_size as int,
                ) is Some,
                None => true,
            }
        },
    }
}

/// The resolver: the parsed hash index, symbol table, string table and
/// optional version overlay of one loaded object.
pub struct SymbolData {
    /// `.gnu.hash`
    pub hashtab: ElfGnuHash,
    /// `.dynsym`
    pub symtab: Vec<ElfSymbol>,
    /// `.dynstr`
    pub strtab: ElfStringTable,
    /// `.gnu.version`, `.gnu.version_r`, `.gnu.version_d`
    pub version: Option<ElfVersion>,
}

impl SymbolData {
    /// What construction establishes and every lookup relies on: the
    /// hash index is well formed, its chains cover the symbol table
    /// from the base on, the string table is NUL-terminated, every
    /// symbol's name offset lies inside it, every non-empty bucket
    /// points at a chained symbol, and the version overlay (when
    /// present) has one index per symbol and in-range name offsets.
    pub open spec fn wf(&self) -> bool {
        &&& self.hashtab.wf()
        &&& self.strtab.wf()
        &&& self.hashtab.table_start_idx as int <= self.symtab@.len()
        &&& self.hashtab.chains@.len() == self.symtab@.len()
            - self.hashtab.table_start_idx as int
        &&& self.symtab@.len() <= u32::MAX
        &&& forall|i: int|
            0 <= i < self.symtab@.len() ==> (#[trigger] self.symtab@[i]).st_name
                < self.strtab@.len()
        &&& forall|b: int|
            0 <= b < self.hashtab.buckets@.len() ==> {
                let s = #[trigger] self.hashtab.buckets@[b];
                s == 0 || (self.hashtab.table_start_idx <= s && (s as int) < self.symtab@.len())
            }
        &&& match self.version {
            None => true,
            Some(v) => v.version_ids@.len() == self.symtab@.len() && v.wf(
                self.strtab@.len() as int,
            ),
        }
    }

    /// Whether chain position `i` ends the lookup with a hit: the
    /// stored hash matches up to the chain-end bit, the symbol's name
    /// equals the query's, and the version matrix accepts it.
    pub open spec fn chain_hit(
        &self,
        name: Seq<u8>,
        required: Option<Seq<u8>>,
        hash: u32,
        i: int,
    ) -> bool {
        &&& self.hashtab.chains@[i - self.hashtab.table_start_idx as int] | 1 == hash | 1
        &&& name_at(self.strtab@, self.symtab@[i].st_name as int) == name
        &&& spec_check_match(self.version, self.strtab@, i, required)
    }

    /// The chain walk from symbol index `i`: the first hit wins; a set
    /// chain-end bit on a non-hit ends the chain; running past the
    /// symbol table (a malformed chain) finds nothing.
    pub open spec fn spec_chain_walk(
        &self,
        name: Seq<u8>,
        required: Option<Seq<u8>>,
        hash: u32,
        i: int,
    ) -> Option<int>
        decreases self.symtab@.len() - i,
    {
        if i < self.hashtab.table_start_idx as int || i >= self.symtab@.len() {
            None
        } else if self.chain_hit(name, required, hash, i) {
            Some(i)
        } else if self.hashtab.chains@[i - self.hashtab.table_start_idx as int] & 1 == 1 {
            None
        } else {
            self.spec_chain_walk(name, required, hash, i + 1)
        }
    }

    /// The index `get_sym` resolves a query to: nothing when a bloom
    /// probe misses or the bucket is empty, else the first hit of the
    /// bucket's chain.
    pub open spec fn spec_lookup_idx(&self, name: Seq<u8>, required: Option<Seq<u8>>) -> Option<
        int,
    > {
        let hash = spec_gnu_hash(name);
        if !self.hashtab.bloom_passes(hash) {
            None
        } else {
            let start = self.hashtab.bucket_of(hash);
            if start == 0 {
                None
            } else {
                self.spec_chain_walk(name, required, hash, start as int)
            }
        }
    }

    /// The record `get_sym` returns.
    pub open spec fn spec_get_sym(&self, name: Seq<u8>, required: Option<Seq<u8>>) -> Option<
        ElfSymbol,
    > {
        match self.spec_lookup_idx(name, required) {
            Some(i) => Some(self.symtab@[i]),
            None => None,
        }
    }

    /// The string table, for callers that must read names themselves.
    pub fn strtab(&self) -> (r: &ElfStringTable)
        ensures
            r == &self.strtab,
    {
        &self.strtab
    }

    /// Whether the version matrix accepts symbol `idx` for a query
    /// that requires `required`.
    pub fn check_match(&self, idx: usize, required: &Option<&[u8]>) -> (r: bool)
        requires
            self.wf(),
            idx < self.symtab@.len(),
        ensures
            r == spec_check_match(
                self.version,
                self.strtab@,
                idx as int,
                match *required {
                    Some(v) => Some(v@),
                    None => None,
                },
            ),
    {
        match &self.version {
            None => required.is_none(),
            Some(v) => {
                let vidx: u16 = v.version_ids[idx];
                let vnum: u16 = vidx & VERSYM_INDEX_MASK;
                if vnum == 0 {
                    false
                } else if vnum == 1 {
                    required.is_none()
                } else {
                    match required {
                        None => vidx & VERSYM_HIDDEN == 0,
                        Some(req) => match v.find_def(vnum) {
                            Some(d) => {
                                proof {
                                    crate::version::lemma_find_def_in(v.defs@, vnum);
                                    lemma_terminated_table_valid(
                                        self.strtab@,
                                        d.name_off as int,
                                    );
                                }
                                self.strtab.name_matches(d.name_off as usize, req)
                            },
                            None => false,
                        },
                    }
                }
            },
        }
    }

    /// The version symbol `idx` requires of its defining object, for
    /// re-entering lookup against that object.
    pub fn get_requirement(&self, idx: usize) -> (r: Option<&[u8]>)
        requires
            self.wf(),
            idx < self.symtab@.len(),
        ensures
            match r {
                Some(s) => spec_requirement(self.version, self.strtab@, idx as int) == Some(s@),
                None => spec_requirement(self.version, self.strtab@, idx as int) is None,
            },
    {
        match &self.version {
            None => None,
            Some(v) => {
                let vnum: u16 = v.version_ids[idx] & VERSYM_INDEX_MASK;
                if vnum < 2 {
                    None
                } else {
                    match v.find_need(vnum) {
                        Some(n) => {
                            proof {
                                crate::version::lemma_find_need_in(v.needs@, vnum);
                                lemma_terminated_table_valid(self.strtab@, n.name_off as int);
                            }
                            match self.strtab.get(n.name_off as usize) {
                                Ok(s) => Some(s),
                                Err(_) => vstd::pervasive::unreached(),
                            }
                        },
                        None => None,
                    }
                }
            },
        }
    }

    /// Name-to-record lookup over the GNU hash index: bloom probes,
    /// bucket selection, chain walk, then name and version
    /// confirmation. Returns the first confirmed record of the chain,
    /// or nothing when the image does not define an accepted symbol of
    /// that name.
    pub fn get_sym(&self, symbol: &SymbolInfo) -> (r: Option<&ElfSymbol>)
        requires
            self.wf(),
        ensures
            match r {
                Some(s) => self.spec_get_sym(symbol.name@, symbol.version_view()) == Some(*s),
                None => self.spec_get_sym(symbol.name@, symbol.version_view()) is None,
            },
    {
        let hash: u32 = ElfGnuHash::gnu_hash(symbol.name);
        if !self.hashtab.bloom_filter(hash) {
            return None;
        }
        let start: u32 = self.hashtab.bucket_start(hash);
        if start == 0 {
            return None;
        }
        let base: usize = self.hashtab.table_start_idx as usize;
        let symtab_len: usize = self.symtab.len();
        let mut idx: usize = start as usize;
        while idx < symtab_len
            invariant
                self.wf(),
                symtab_len == self.symtab@.len(),
                base == self.hashtab.table_start_idx as usize,
                hash == spec_gnu_hash(symbol.name@),
                base <= idx <= symtab_len,
                self.spec_lookup_idx(symbol.name@, symbol.version_view())
                    == self.spec_chain_walk(
                    symbol.name@,
                    symbol.version_view(),
                    hash,
                    idx as int,
                ),
            decreases symtab_len - idx,
        {
            let c: u32 = self.hashtab.chains[idx - base];
            if c | 1 == hash | 1 {
                let sym: &ElfSymbol = &self.symtab[idx];
                proof {
                    lemma_terminated_table_valid(self.strtab@, sym.st_name as int);
                }
                if self.strtab.name_matches(sym.st_name as usize, symbol.name) {
                    if self.check_match(idx, &symbol.version) {
                        proof {
                            assert(self.chain_hit(
                                symbol.name@,
                                symbol.version_view(),
                                hash,
                                idx as int,
                            ));
                        }
                        return Some(sym);
                    }
                }
            }
            proof {
                assert(!self.chain_hit(symbol.name@, symbol.version_view(), hash, idx as int));
            }
            if c & 1 == 1 {
                return None;
            }
            idx = idx + 1;
        }
        None
    }

    /// The record and query of the symbol a relocation names: the
    /// record itself, its name, and (when versioning is present) the
    /// version it requires — ready to be re-resolved against another
    /// object.
    pub fn rel_symbol(&self, idx: usize) -> (r: (&ElfSymbol, SymbolInfo))
        requires
            self.wf(),
            idx < self.symtab@.len(),
        ensures
            *r.0 == self.symtab@[idx as int],
            valid_name_offset(self.strtab@, self.symtab@[idx as int].st_name as int),
            r.1.name@ == name_at(self.strtab@, self.symtab@[idx as int].st_name as int),
            r.1.version_view() == spec_requirement(self.version, self.strtab@, idx as int),
    {
        let symbol: &ElfSymbol = &self.symtab[idx];
        proof {
            lemma_terminated_table_valid(self.strtab@, symbol.st_name as int);
        }
        let name: &[u8] = match self.strtab.get(symbol.st_name as usize) {
            Ok(s) => s,
            Err(_) => vstd::pervasive::unreached(),
        };
        let version: Option<&[u8]> = self.get_requirement(idx);
        (symbol, SymbolInfo { name, version })
    }

    /// Builds the resolver from the image and the dynamic section's
    /// offsets: parses the hash index, copies and checks the string,
    /// symbol and version tables, and refuses an image whose tables do
    /// not fit or point outside one another.
    pub fn new(image: &[u8], dynamic: &ElfDynamic) -> (r: Result<SymbolData, ElfError>)
        ensures
            match r {
                Ok(sd) => {
                    &&& sd.wf()
                    &&& spec_new_ok(image@, *dynamic)
                    &&& spec_tables_ok(image@, *dynamic)
                    &&& sd.hashtab.describes(
                        image@,
                        dynamic.hashtab as int,
                        dynamic.symtab_len as int,
                    )
                    &&& sd.strtab@ == image@.subrange(
                        dynamic.strtab as int,
                        dynamic.strtab + dynamic.strtab_size,
                    )
                    &&& sd.symtab@.len() == dynamic.symtab_len
                    &&& forall|i: int|
                        0 <= i < dynamic.symtab_len ==> sd.symtab@[i] == spec_symbol_at(
                            image@,
                            dynamic.symtab + 24 * i,
                        )
                    &&& match sd.version {
                        None => dynamic.version_ids is None,
                        Some(v) => {
                            &&& dynamic.version_ids is Some
                            &&& v.version_ids@.len() == dynamic.symtab_len
                            &&& forall|i: int|
                                0 <= i < dynamic.symtab_len ==> v.version_ids@[i] == u16_at(
                                    image@,
                                    dynamic.version_ids->Some_0 + 2 * i,
                                )
                            &&& match dynamic.verneed {
                                Some((o, c)) => crate::version::spec_parse_verneed(
                                    image@,
                                    o as int,
                                    c as int,
                                    dynamic.strtab_size as int,
                                ) == Some(v.needs@),
                                None => v.needs@.len() == 0,
                            }
                            &&& match dynamic.verdef {
                                Some((o, c)) => crate::version::spec_parse_verdef(
                                    image@,
                                    o as int,
                                    c as int,
                                    dynamic.strtab_size as int,
                                ) == Some(v.defs@),
                                None => v.defs@.len() == 0,
                            }
                        },
                    }
                },
                Err(_) => !spec_new_ok(image@, *dynamic),
            },
    {
        let image_len: usize = image.len();
        if dynamic.symtab_len as u64 > u32::MAX as u64 {
            return Err(ElfError::MalformedSymbolTable);
        }
        let hashtab: ElfGnuHash = match ElfGnuHash::parse(
            image,
            dynamic.hashtab,
            dynamic.symtab_len,
        ) {
            Ok(h) => h,
            Err(e) => {
                return Err(e);
            },
        };
        if dynamic.strtab_size == 0 || dynamic.strtab > image_len || dynamic.strtab_size
            > image_len - dynamic.strtab {
            return Err(ElfError::MalformedStringTable);
        }
        if image[dynamic.strtab + dynamic.strtab_size - 1] != 0 {
            return Err(ElfError::MalformedStringTable);
        }
        let strtab: ElfStringTable = ElfStringTable::new(
            slice_to_vec(
                slice_subrange(image, dynamic.strtab, dynamic.strtab + dynamic.strtab_size),
            ),
        );
        if dynamic.symtab > image_len || (24 * dynamic.symtab_len as u64) > (image_len
            - dynamic.symtab) as u64 {
            return Err(ElfError::MalformedSymbolTable);
        }
        let mut symtab: Vec<ElfSymbol> = Vec::new();
        let mut i: usize = 0;
        while i < dynamic.symtab_len
            invariant
                image_len == image@.len(),
                dynamic.symtab + 24 * (dynamic.symtab_len as int) <= image@.len(),
                0 <= i <= dynamic.symtab_len,
                symtab@.len() == i as int,
                forall|t: int|
                    0 <= t < i ==> symtab@[t] == spec_symbol_at(image@, dynamic.symtab + 24 * t),
                forall|t: int|
                    0 <= t < i ==> (#[trigger] symtab@[t]).st_name < dynamic.strtab_size,
            decreases dynamic.symtab_len - i,
        {
            let e_off: usize = dynamic.symtab + 24 * i;
            let st_name: u32 = read_u32(image, e_off);
            if st_name as u64 >= dynamic.strtab_size as u64 {
                proof {
                    assert(spec_symbol_at(image@, dynamic.symtab + 24 * (i as int)).st_name
                        == st_name);
                }
                return Err(ElfError::MalformedSymbolTable);
            }
            let record = ElfSymbol {
                st_name,
                st_info: image[e_off + 4],
                st_other: image[e_off + 5],
                st_shndx: read_u16(image, e_off + 6),
                st_value: read_u64(image, e_off + 8),
                st_size: read_u64(image, e_off + 16),
            };
            symtab.push(record);
            i = i + 1;
        }
        let mut b: usize = 0;
        while b < hashtab.buckets.len()
            invariant
                image_len == image@.len(),
                hashtab.wf(),
                hashtab.describes(image@, dynamic.hashtab as int, dynamic.symtab_len as int),
                0 <= b <= hashtab.buckets@.len(),
                symtab@.len() == dynamic.symtab_len,
                hashtab.table_start_idx <= dynamic.symtab_len,
                forall|t: int|
                    0 <= t < b ==> {
                        let s = #[trigger] hashtab.buckets@[t];
                        s == 0 || (hashtab.table_start_idx <= s && (s as int) < symtab@.len())
                    },
            decreases hashtab.buckets@.len() - b,
        {
            let s: u32 = hashtab.buckets[b];
            if s != 0 && (s < hashtab.table_start_idx || s as usize >= dynamic.symtab_len) {
                proof {
                    let nbloom = u32_at(image@, dynamic.hashtab + 8);
                    assert(hashtab.buckets@[b as int] == u32_at(
                        image@,
                        dynamic.hashtab + 16 + 8 * (nbloom as int) + 4 * (b as int),
                    ));
                }
                return Err(ElfError::MalformedHashTable);
            }
            b = b + 1;
        }
        let version: Option<ElfVersion> = match dynamic.version_ids {
            Some(vids_off) => {
                let ids: Vec<u16> = match parse_version_ids(
                    image,
                    vids_off,
                    dynamic.symtab_len,
                ) {
                    Ok(v) => v,
                    Err(e) => {
                        return Err(e);
                    },
                };
                let needs = match dynamic.verneed {
                    Some((off, count)) => match parse_verneed(
                        image,
                        off,
                        count,
                        dynamic.strtab_size,
                    ) {
                        Ok(v) => v,
                        Err(e) => {
                            return Err(e);
                        },
                    },
                    None => Vec::new(),
                };
                let defs = match dynamic.verdef {
                    Some((off, count)) => match parse_verdef(
                        image,
                        off,
                        count,
                        dynamic.strtab_size,
                    ) {
                        Ok(v) => v,
                        Err(e) => {
                            return Err(e);
                        },
                    },
                    None => Vec::new(),
                };
                Some(ElfVersion { version_ids: ids, defs, needs })
            },
            None => None,
        };
        proof {
            assert forall|t: int|
                0 <= t < dynamic.symtab_len implies (#[trigger] spec_symbol_at(
                image@,
                dynamic.symtab + 24 * t,
            )).st_name < dynamic.strtab_size by {
                assert(symtab@[t] == spec_symbol_at(image@, dynamic.symtab + 24 * t));
                assert(symtab@[t].st_name < dynamic.strtab_size);
            }
            let nbloom = u32_at(image@, dynamic.hashtab + 8);
            assert forall|t: int|
                0 <= t < u32_at(image@, dynamic.hashtab as int) implies {
                let s = #[trigger] u32_at(
                    image@,
                    dynamic.hashtab + 16 + 8 * (nbloom as int) + 4 * t,
                );
                s == 0 || (u32_at(image@, dynamic.hashtab + 4) <= s && (s as int)
                    < dynamic.symtab_len)
            } by {
                assert(hashtab.buckets@[t] == u32_at(
                    image@,
                    dynamic.hashtab + 16 + 8 * (nbloom as int) + 4 * t,
                ));
            }
        }
        Ok(SymbolData { hashtab, symtab, strtab, version })
    }
}

} // verus!
