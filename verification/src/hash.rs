//! The GNU hash function and the parsed `.gnu.hash` index.
use vstd::bytes::spec_u16_from_le_bytes;
use vstd::bytes::spec_u32_from_le_bytes;
use vstd::bytes::spec_u64_from_le_bytes;
use vstd::bytes::u16_from_le_bytes;
use vstd::bytes::u32_from_le_bytes;
use vstd::bytes::u64_from_le_bytes;
use vstd::prelude::*;
use vstd::slice::slice_subrange;

use crate::ElfError;

verus! {

/// The little-endian 16-bit word stored at byte offset `off`.
pub open spec fn u16_at(s: Seq<u8>, off: int) -> u16 {
    spec_u16_from_le_bytes(s.subrange(off, off + 2))
}

/// The little-endian 32-bit word stored at byte offset `off`.
pub open spec fn u32_at(s: Seq<u8>, off: int) -> u32 {
    spec_u32_from_le_bytes(s.subrange(off, off + 4))
}

/// The little-endian 64-bit word stored at byte offset `off`.
pub open spec fn u64_at(s: Seq<u8>, off: int) -> u64 {
    spec_u64_from_le_bytes(s.subrange(off, off + 8))
}

pub fn read_u16(data: &[u8], off: usize) -> (r: u16)
    requires
        off + 2 <= data@.len(),
    ensures
        r == u16_at(data@, off as int),
{
    let n: usize = data.len();
    assert(off + 2 <= n);
    u16_from_le_bytes(slice_subrange(data, off, off + 2))
}

pub fn read_u32(data: &[u8], off: usize) -> (r: u32)
    requires
        off + 4 <= data@.len(),
    ensures
        r == u32_at(data@, off as int),
{
    let n: usize = data.len();
    assert(off + 4 <= n);
    u32_from_le_bytes(slice_subrange(data, off, off + 4))
}

pub fn read_u64(data: &[u8], off: usize) -> (r: u64)
    requires
        off + 8 <= data@.len(),
    ensures
        r == u64_at(data@, off as int),
{
    let n: usize = data.len();
    assert(off + 8 <= n);
    u64_from_le_bytes(slice_subrange(data, off, off + 8))
}

/// One step of the GNU hash recurrence: `h * 33 + b`, wrapping at 32
/// bits.
pub open spec fn hash_step(h: u32, b: u8) -> u32 {
    vstd::wrapping::u32_specs::wrapping_add(
        vstd::wrapping::u32_specs::wrapping_mul(h, 33),
        b as u32,
    )
}

/// The GNU hash of a byte string: 5381 folded left to right through
/// `hash_step`.
pub open spec fn spec_gnu_hash(name: Seq<u8>) -> u32
    decreases name.len(),
{
    if name.len() == 0 {
        5381u32
    } else {
        hash_step(spec_gnu_hash(name.drop_last()), name.last())
    }
}

/// The parsed `.gnu.hash` index: header words plus the bloom, bucket
/// and chain arrays.
pub struct ElfGnuHash {
    /// Number of hash buckets; at least one in a well-formed index.
    pub nbucket: u32,
    /// First dynamic-symbol index reachable by hash lookup; entries
    /// below it are not chained.
    pub table_start_idx: u32,
    /// Right-shift amount of the second bloom probe.
    pub nshift: u32,
    /// Bloom filter words.
    pub blooms: Vec<u64>,
    /// Per-bucket first symbol index; 0 marks an empty bucket.
    pub buckets: Vec<u32>,
    /// Per-symbol stored hashes from `table_start_idx` on; the low bit
    /// marks the end of a chain.
    pub chains: Vec<u32>,
}

impl ElfGnuHash {
    /// What `parse` establishes: array lengths agree with the header
    /// words and the shift is a legal one.
    pub open spec fn wf(&self) -> bool {
        &&& self.nbucket >= 1
        &&& self.buckets@.len() == self.nbucket as int
        &&& self.blooms@.len() >= 1
        &&& self.nshift < 32
    }

    /// The GNU hash of `name`.
    pub fn gnu_hash(name: &[u8]) -> (r: u32)
        ensures
            r == spec_gnu_hash(name@),
    {
        let mut hash: u32 = 5381;
        let mut i: usize = 0;
        while i < name.len()
            invariant
                0 <= i <= name@.len(),
                hash == spec_gnu_hash(name@.subrange(0, i as int)),
            decreases name@.len() - i,
        {
            hash = hash.wrapping_mul(33).wrapping_add(name[i] as u32);
            proof {
                let pre = name@.subrange(0, i + 1);
                assert(pre.drop_last() =~= name@.subrange(0, i as int));
                assert(pre.last() == name@[i as int]);
            }
            i = i + 1;
        }
        proof {
            assert(name@.subrange(0, name@.len() as int) =~= name@);
        }
        hash
    }

    /// Which bloom word the first hash selects.
    pub open spec fn bloom_index(&self, hash: u32) -> int {
        ((hash as int) / 64) % (self.blooms@.len() as int)
    }

    /// Whether both bloom probes for `hash` find their bit set.
    pub open spec fn bloom_passes(&self, hash: u32) -> bool
        recommends
            self.wf(),
    {
        let w = self.blooms@[self.bloom_index(hash)];
        &&& (w >> ((hash % 64) as u64)) & 1 == 1
        &&& (w >> (((hash >> self.nshift) % 64) as u64)) & 1 == 1
    }

    /// The double bloom probe: a clear bit in either position proves
    /// the name absent.
    pub fn bloom_filter(&self, hash: u32) -> (r: bool)
        requires
            self.wf(),
        ensures
            r == self.bloom_passes(hash),
    {
        let idx: usize = ((hash / 64) as usize) % self.blooms.len();
        let w: u64 = self.blooms[idx];
        assert(idx as int == self.bloom_index(hash));
        let bit1: u64 = (w >> ((hash % 64) as u64)) & 1;
        let hash2: u32 = hash >> self.nshift;
        let bit2: u64 = (w >> ((hash2 % 64) as u64)) & 1;
        bit1 == 1 && bit2 == 1
    }

    /// The bucket `hash` selects.
    pub open spec fn bucket_of(&self, hash: u32) -> u32
        recommends
            self.wf(),
    {
        self.buckets@[(hash as int) % (self.nbucket as int)]
    }

    /// First symbol index of the chain for `hash`; 0 when the bucket is
    /// empty.
    pub fn bucket_start(&self, hash: u32) -> (r: u32)
        requires
            self.wf(),
        ensures
            r == self.bucket_of(hash),
    {
        self.buckets[(hash % self.nbucket) as usize]
    }

    /// Whether this index is exactly the one stored at `off` in
    /// `data`: every header word and every array element agrees with
    /// the image bytes, and the chains run to the end of a symbol
    /// table of `symtab_len` records.
    pub open spec fn describes(&self, data: Seq<u8>, off: int, symtab_len: int) -> bool {
        &&& self.nbucket == u32_at(data, off)
        &&& self.table_start_idx == u32_at(data, off + 4)
        &&& self.nshift == u32_at(data, off + 12)
        &&& self.blooms@.len() == u32_at(data, off + 8) as int
        &&& self.table_start_idx <= symtab_len
        &&& self.chains@.len() == symtab_len - self.table_start_idx as int
        &&& forall|i: int|
            0 <= i < self.blooms@.len() ==> self.blooms@[i] == u64_at(data, off + 16 + 8 * i)
        &&& forall|j: int|
            0 <= j < self.buckets@.len() ==> self.buckets@[j] == u32_at(
                data,
                off + 16 + 8 * self.blooms@.len() + 4 * j,
            )
        &&& forall|k: int|
            0 <= k < self.chains@.len() ==> self.chains@[k] == u32_at(
                data,
                off + 16 + 8 * self.blooms@.len() + 4 * self.buckets@.len() + 4 * k,
            )
    }

    /// Whether the four header words at `off` describe an index whose
    /// arrays fit in the image: at least one bucket and one bloom word,
    /// a shift below the hash width, a symbol base no larger than the
    /// symbol table, and room for every array.
    pub open spec fn header_ok(data: Seq<u8>, off: int, symtab_len: int) -> bool {
        &&& off + 16 <= data.len()
        &&& u32_at(data, off) >= 1
        &&& u32_at(data, off + 8) >= 1
        &&& u32_at(data, off + 12) < 32
        &&& u32_at(data, off + 4) <= symtab_len
        &&& off + 16 + 8 * (u32_at(data, off + 8) as int) + 4 * (u32_at(data, off) as int) + 4 * (
        symtab_len - u32_at(data, off + 4) as int) <= data.len()
    }

    /// Reads the four-word header at `off` and the three arrays after
    /// it. The chains array runs to the end of the symbol table, whose
    /// length bounds every walk.
    pub fn parse(data: &[u8], off: usize, symtab_len: usize) -> (r: Result<ElfGnuHash, ElfError>)
        requires
            symtab_len <= u32::MAX,
        ensures
            match r {
                Ok(h) => {
                    &&& Self::header_ok(data@, off as int, symtab_len as int)
                    &&& h.wf()
                    &&& h.describes(data@, off as int, symtab_len as int)
                },
                Err(e) => {
                    &&& e == ElfError::MalformedHashTable
                    &&& !Self::header_ok(data@, off as int, symtab_len as int)
                },
            },
    {
        if data.len() < 16 || off > data.len() - 16 {
            return Err(ElfError::MalformedHashTable);
        }
        let nbucket: u32 = read_u32(data, off);
        let table_start_idx: u32 = read_u32(data, off + 4);
        let nbloom: u32 = read_u32(data, off + 8);
        let nshift: u32 = read_u32(data, off + 12);
        if nbucket == 0 || nbloom == 0 || nshift >= 32 {
            return Err(ElfError::MalformedHashTable);
        }
        if table_start_idx as usize > symtab_len {
            return Err(ElfError::MalformedHashTable);
        }
        let chain_len: usize = symtab_len - table_start_idx as usize;
        // All array sizes fit in 64 bits: each count is below 2^32.
        let rem: u64 = (data.len() - off - 16) as u64;
        let need: u64 = 8 * (nbloom as u64) + 4 * (nbucket as u64) + 4 * (chain_len as u64);
        if need > rem {
            return Err(ElfError::MalformedHashTable);
        }
        let data_len: usize = data.len();
        let blooms_off: usize = off + 16;
        let mut blooms: Vec<u64> = Vec::new();
        let mut i: usize = 0;
        while i < nbloom as usize
            invariant
                data_len == data@.len(),
                0 <= i <= nbloom as usize,
                blooms_off == off + 16,
                blooms_off + 8 * (nbloom as int) <= data@.len(),
                blooms@.len() == i as int,
                forall|t: int| 0 <= t < i ==> blooms@[t] == u64_at(data@, blooms_off + 8 * t),
            decreases nbloom as int - i,
        {
            blooms.push(read_u64(data, blooms_off + 8 * i));
            i = i + 1;
        }
        let buckets_off: usize = blooms_off + 8 * nbloom as usize;
        let mut buckets: Vec<u32> = Vec::new();
        let mut j: usize = 0;
        while j < nbucket as usize
            invariant
                data_len == data@.len(),
                0 <= j <= nbucket as usize,
                buckets_off == off + 16 + 8 * (nbloom as int),
                buckets_off + 4 * (nbucket as int) <= data@.len(),
                buckets@.len() == j as int,
                forall|t: int| 0 <= t < j ==> buckets@[t] == u32_at(data@, buckets_off + 4 * t),
            decreases nbucket as int - j,
        {
            buckets.push(read_u32(data, buckets_off + 4 * j));
            j = j + 1;
        }
        let chains_off: usize = buckets_off + 4 * nbucket as usize;
        let mut chains: Vec<u32> = Vec::new();
        let mut k: usize = 0;
        while k < chain_len
            invariant
                data_len == data@.len(),
                0 <= k <= chain_len,
                chains_off == off + 16 + 8 * (nbloom as int) + 4 * (nbucket as int),
                chains_off + 4 * (chain_len as int) <= data@.len(),
                chains@.len() == k as int,
                forall|t: int| 0 <= t < k ==> chains@[t] == u32_at(data@, chains_off + 4 * t),
            decreases chain_len as int - k,
        {
            chains.push(read_u32(data, chains_off + 4 * k));
            k = k + 1;
        }
        Ok(ElfGnuHash { nbucket, table_start_idx, nshift, blooms, buckets, chains })
    }
}

} // verus!
