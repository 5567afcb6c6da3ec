//! What lookup guarantees, proved once and for all images the
//! resolver accepts.
use vstd::prelude::*;

use crate::hash::spec_gnu_hash;
use crate::strtab::name_at;
use crate::symbol::ElfSymbol;
use crate::symbol::SymbolData;
use crate::version::spec_check_match;

verus! {

/// A successful chain walk stops inside the chained part of the symbol
/// table, on a position whose stored hash, name and version all match
/// the query.
pub proof fn lemma_chain_walk_sound(
    sd: &SymbolData,
    name: Seq<u8>,
    required: Option<Seq<u8>>,
    hash: u32,
    start: int,
    found: int,
)
    requires
        sd.spec_chain_walk(name, required, hash, start) == Some(found),
    ensures
        sd.hashtab.table_start_idx as int <= found < sd.symtab@.len(),
        start <= found,
        sd.chain_hit(name, required, hash, found),
    decreases sd.symtab@.len() - start,
{
    if start < sd.hashtab.table_start_idx as int || start >= sd.symtab@.len() {
        assert(false);
    } else if sd.chain_hit(name, required, hash, start) {
    } else if sd.hashtab.chains@[start - sd.hashtab.table_start_idx as int] & 1 == 1 {
        assert(false);
    } else {
        lemma_chain_walk_sound(sd, name, required, hash, start + 1, found);
    }
}

/// Soundness of lookup: whatever index a query resolves to lies in the
/// chained part of the table, bears exactly the queried name, and is
/// accepted by the version matrix.
pub proof fn lemma_lookup_sound(
    sd: &SymbolData,
    name: Seq<u8>,
    required: Option<Seq<u8>>,
    found: int,
)
    requires
        sd.spec_lookup_idx(name, required) == Some(found),
    ensures
        sd.hashtab.table_start_idx as int <= found < sd.symtab@.len(),
        name_at(sd.strtab@, sd.symtab@[found].st_name as int) == name,
        spec_check_match(sd.version, sd.strtab@, found, required),
        sd.hashtab.chains@[found - sd.hashtab.table_start_idx as int] | 1 == spec_gnu_hash(name)
            | 1,
{
    let hash = spec_gnu_hash(name);
    let start = sd.hashtab.bucket_of(hash);
    lemma_chain_walk_sound(sd, name, required, hash, start as int, found);
}

/// Every record a query returns bears the queried name, byte for byte.
pub proof fn lemma_get_sym_names_match(
    sd: &SymbolData,
    name: Seq<u8>,
    required: Option<Seq<u8>>,
    s: ElfSymbol,
)
    requires
        sd.wf(),
        sd.spec_get_sym(name, required) == Some(s),
    ensures
        name_at(sd.strtab@, s.st_name as int) == name,
{
    let found = sd.spec_lookup_idx(name, required)->Some_0;
    lemma_lookup_sound(sd, name, required, found);
}

/// A name no symbol of the image bears resolves to nothing.
pub proof fn lemma_get_sym_absent(sd: &SymbolData, name: Seq<u8>, required: Option<Seq<u8>>)
    requires
        sd.wf(),
        forall|i: int|
            0 <= i < sd.symtab@.len() ==> name_at(
                sd.strtab@,
                (#[trigger] sd.symtab@[i]).st_name as int,
            ) != name,
    ensures
        sd.spec_get_sym(name, required) is None,
{
    if sd.spec_lookup_idx(name, required) is Some {
        let found = sd.spec_lookup_idx(name, required)->Some_0;
        lemma_lookup_sound(sd, name, required, found);
    }
}

/// Lookup never returns an undefined symbol when the chained part of
/// the table defines every record, as a well-formed export table does:
/// undefined symbols are consumers, not hits.
pub proof fn lemma_get_sym_no_undef(
    sd: &SymbolData,
    name: Seq<u8>,
    required: Option<Seq<u8>>,
    s: ElfSymbol,
)
    requires
        sd.wf(),
        forall|i: int|
            sd.hashtab.table_start_idx as int <= i < sd.symtab@.len() ==> (
            #[trigger] sd.symtab@[i]).st_shndx != 0,
        sd.spec_get_sym(name, required) == Some(s),
    ensures
        s.st_shndx != 0,
{
    let found = sd.spec_lookup_idx(name, required)->Some_0;
    lemma_lookup_sound(sd, name, required, found);
}

/// Bloom soundness: when either bloom probe finds its bit clear, the
/// query resolves to nothing — no bucket is read and no chain is
/// walked.
pub proof fn lemma_bloom_reject(sd: &SymbolData, name: Seq<u8>, required: Option<Seq<u8>>)
    requires
        !sd.hashtab.bloom_passes(spec_gnu_hash(name)),
    ensures
        sd.spec_get_sym(name, required) is None,
{
}

/// Empty-bucket short-circuit: when the bloom probes pass but the
/// selected bucket is empty, the query resolves to nothing without a
/// chain read.
pub proof fn lemma_empty_bucket(sd: &SymbolData, name: Seq<u8>, required: Option<Seq<u8>>)
    requires
        sd.hashtab.bucket_of(spec_gnu_hash(name)) == 0,
    ensures
        sd.spec_get_sym(name, required) is None,
{
}

/// Lookup is deterministic: two calls with one query on one resolver
/// return identical records, byte for byte.
pub proof fn lemma_get_sym_deterministic(
    sd: &SymbolData,
    name: Seq<u8>,
    required: Option<Seq<u8>>,
    r1: Option<ElfSymbol>,
    r2: Option<ElfSymbol>,
)
    requires
        r1 == sd.spec_get_sym(name, required),
        r2 == sd.spec_get_sym(name, required),
    ensures
        r1 == r2,
{
}

/// Round trip through a relocation's symbol: resolving the name
/// `rel_symbol` reports yields either a record of exactly that name or
/// nothing.
pub proof fn lemma_rel_symbol_round_trip(sd: &SymbolData, idx: int, required: Option<Seq<u8>>)
    requires
        sd.wf(),
        0 <= idx < sd.symtab@.len(),
    ensures
        ({
            let n = name_at(sd.strtab@, sd.symtab@[idx].st_name as int);
            match sd.spec_get_sym(n, required) {
                Some(s) => name_at(sd.strtab@, s.st_name as int) == n,
                None => true,
            }
        }),
{
    let n = name_at(sd.strtab@, sd.symtab@[idx].st_name as int);
    if sd.spec_get_sym(n, required) is Some {
        let s = sd.spec_get_sym(n, required)->Some_0;
        lemma_get_sym_names_match(sd, n, required, s);
    }
}

impl SymbolData {
    /// A hash index that agrees with the symbols it covers, as a
    /// well-formed linker emits it: every chained symbol's stored hash
    /// is its name's hash, its hash passes the bloom filter, its
    /// bucket starts at or before it, and no chain-end bit cuts the
    /// chain off before it.
    pub open spec fn hash_consistent(&self) -> bool {
        let base = self.hashtab.table_start_idx as int;
        &&& base >= 1
        &&& forall|i: int|
            base <= i < self.symtab@.len() ==> {
                let h = spec_gnu_hash(
                    name_at(self.strtab@, (#[trigger] self.symtab@[i]).st_name as int),
                );
                &&& self.hashtab.chains@[i - base] | 1 == h | 1
                &&& self.hashtab.bloom_passes(h)
                &&& self.hashtab.bucket_of(h) != 0
                &&& base <= self.hashtab.bucket_of(h) <= i
                &&& forall|j: int|
                    self.hashtab.bucket_of(h) <= j < i ==> (#[trigger] self.hashtab.chains@[j
                        - base]) & 1 == 0
            }
    }
}

/// On a consistent index whose chained symbols bear distinct names,
/// the round trip is exact: resolving the name of a chained,
/// version-accepted symbol returns that very record.
pub proof fn lemma_round_trip_exact(sd: &SymbolData, idx: int, required: Option<Seq<u8>>)
    requires
        sd.wf(),
        sd.hash_consistent(),
        forall|i: int, j: int|
            sd.hashtab.table_start_idx as int <= i < j < sd.symtab@.len() ==> name_at(
                sd.strtab@,
                (#[trigger] sd.symtab@[i]).st_name as int,
            ) != name_at(sd.strtab@, (#[trigger] sd.symtab@[j]).st_name as int),
        sd.hashtab.table_start_idx as int <= idx < sd.symtab@.len(),
        spec_check_match(sd.version, sd.strtab@, idx, required),
    ensures
        sd.spec_get_sym(name_at(sd.strtab@, sd.symtab@[idx].st_name as int), required) == Some(
            sd.symtab@[idx],
        ),
{
    let n = name_at(sd.strtab@, sd.symtab@[idx].st_name as int);
    lemma_defined_symbol_found(sd, idx, required);
    let found = sd.spec_lookup_idx(n, required)->Some_0;
    lemma_lookup_sound(sd, n, required, found);
    if found != idx {
        if found < idx {
            assert(name_at(sd.strtab@, sd.symtab@[found].st_name as int) != n);
        } else {
            assert(name_at(sd.strtab@, sd.symtab@[idx].st_name as int) != name_at(
                sd.strtab@,
                sd.symtab@[found].st_name as int,
            ));
        }
        assert(false);
    }
}

/// A walk that starts at or before a hit position, with no chain-end
/// bit in between, finds a hit — not necessarily that position: an
/// earlier hit of the same chain wins.
pub proof fn lemma_chain_walk_reaches(
    sd: &SymbolData,
    name: Seq<u8>,
    required: Option<Seq<u8>>,
    hash: u32,
    start: int,
    i: int,
)
    requires
        sd.wf(),
        sd.hashtab.table_start_idx as int <= start <= i < sd.symtab@.len(),
        sd.chain_hit(name, required, hash, i),
        forall|j: int|
            start <= j < i ==> (#[trigger] sd.hashtab.chains@[j
                - sd.hashtab.table_start_idx as int]) & 1 == 0,
    ensures
        sd.spec_chain_walk(name, required, hash, start) is Some,
        sd.chain_hit(name, required, hash, sd.spec_chain_walk(name, required, hash, start)->Some_0),
    decreases i - start,
{
    if sd.chain_hit(name, required, hash, start) {
    } else {
        assert(start < i);
        lemma_chain_walk_reaches(sd, name, required, hash, start + 1, i);
    }
}

/// Completeness of lookup on a consistent index: every chained symbol
/// the version matrix accepts for a query is found — the query
/// resolves to a record bearing exactly its name.
pub proof fn lemma_defined_symbol_found(sd: &SymbolData, idx: int, required: Option<Seq<u8>>)
    requires
        sd.wf(),
        sd.hash_consistent(),
        sd.hashtab.table_start_idx as int <= idx < sd.symtab@.len(),
        spec_check_match(sd.version, sd.strtab@, idx, required),
    ensures
        ({
            let n = name_at(sd.strtab@, sd.symtab@[idx].st_name as int);
            match sd.spec_get_sym(n, required) {
                Some(s) => name_at(sd.strtab@, s.st_name as int) == n,
                None => false,
            }
        }),
{
    let n = name_at(sd.strtab@, sd.symtab@[idx].st_name as int);
    let hash = spec_gnu_hash(n);
    let base = sd.hashtab.table_start_idx as int;
    assert(sd.hashtab.chains@[idx - base] | 1 == hash | 1);
    assert(sd.hashtab.bloom_passes(hash));
    let start = sd.hashtab.bucket_of(hash);
    assert(start != 0 && base <= start <= idx);
    assert(sd.chain_hit(n, required, hash, idx));
    lemma_chain_walk_reaches(sd, n, required, hash, start as int, idx);
    let found = sd.spec_chain_walk(n, required, hash, start as int)->Some_0;
    assert(sd.spec_lookup_idx(n, required) == Some(found));
    lemma_chain_walk_sound(sd, n, required, hash, start as int, found);
}

} // verus!
