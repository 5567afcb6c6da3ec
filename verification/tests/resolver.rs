use elf_dynsym::dynamic::ElfDynamic;
use elf_dynsym::strtab::ElfStringTable;
use elf_dynsym::hash::ElfGnuHash;
use elf_dynsym::symbol::{SymbolData, SymbolInfo};
use elf_dynsym::ElfError;

fn push_u16(v: &mut Vec<u8>, x: u16) {
    v.extend_from_slice(&x.to_le_bytes());
}

fn push_u32(v: &mut Vec<u8>, x: u32) {
    v.extend_from_slice(&x.to_le_bytes());
}

fn push_u64(v: &mut Vec<u8>, x: u64) {
    v.extend_from_slice(&x.to_le_bytes());
}

struct TestSym {
    name: &'static [u8],
    shndx: u16,
    value: u64,
    versym: u16,
}

fn sym(name: &'static [u8], value: u64) -> TestSym {
    TestSym { name, shndx: 1, value, versym: 1 }
}

struct Built {
    image: Vec<u8>,
    dynamic: ElfDynamic,
}

/// Assembles a minimal ELF image fragment: a GNU hash section, a
/// symbol table (one null record plus the given symbols, grouped by
/// bucket), a string table, and optional version tables.
fn build(
    syms: &[TestSym],
    nbucket: u32,
    shift: u32,
    all_ones_bloom: bool,
    verdefs: &[(u16, &'static [u8])],
    verneeds: &[(u16, &'static [u8])],
    with_versym: bool,
) -> Built {
    let mut strtab: Vec<u8> = vec![0];
    let mut name_off: Vec<u32> = Vec::new();
    for s in syms {
        name_off.push(strtab.len() as u32);
        strtab.extend_from_slice(s.name);
        strtab.push(0);
    }
    let mut verdef_name_off: Vec<u32> = Vec::new();
    for (_, n) in verdefs {
        verdef_name_off.push(strtab.len() as u32);
        strtab.extend_from_slice(n);
        strtab.push(0);
    }
    let mut verneed_name_off: Vec<u32> = Vec::new();
    for (_, n) in verneeds {
        verneed_name_off.push(strtab.len() as u32);
        strtab.extend_from_slice(n);
        strtab.push(0);
    }

    let hashes: Vec<u32> = syms.iter().map(|s| ElfGnuHash::gnu_hash(s.name)).collect();
    let mut order: Vec<usize> = Vec::new();
    for b in 0..nbucket {
        for k in 0..syms.len() {
            if hashes[k] % nbucket == b {
                order.push(k);
            }
        }
    }

    let base: u32 = 1;
    let mut chains: Vec<u32> = Vec::new();
    for pos in 0..order.len() {
        let k = order[pos];
        let last =
            pos + 1 == order.len() || hashes[order[pos + 1]] % nbucket != hashes[k] % nbucket;
        chains.push((hashes[k] & !1u32) | (last as u32));
    }
    let mut buckets: Vec<u32> = vec![0; nbucket as usize];
    for pos in 0..order.len() {
        let b = (hashes[order[pos]] % nbucket) as usize;
        if buckets[b] == 0 {
            buckets[b] = base + pos as u32;
        }
    }
    let mut bloom: u64 = if all_ones_bloom { u64::MAX } else { 0 };
    if !all_ones_bloom {
        for &h in &hashes {
            bloom |= 1u64 << (h % 64);
            bloom |= 1u64 << ((h >> shift) % 64);
        }
    }

    let mut image: Vec<u8> = Vec::new();
    let hashtab_off = image.len();
    push_u32(&mut image, nbucket);
    push_u32(&mut image, base);
    push_u32(&mut image, 1);
    push_u32(&mut image, shift);
    push_u64(&mut image, bloom);
    for b in &buckets {
        push_u32(&mut image, *b);
    }
    for c in &chains {
        push_u32(&mut image, *c);
    }

    let symtab_off = image.len();
    for _ in 0..24 {
        image.push(0);
    }
    for &k in &order {
        let s = &syms[k];
        push_u32(&mut image, name_off[k]);
        image.push(0x12);
        image.push(0);
        push_u16(&mut image, s.shndx);
        push_u64(&mut image, s.value);
        push_u64(&mut image, 0);
    }

    let strtab_off = image.len();
    image.extend_from_slice(&strtab);

    let versym_off = image.len();
    if with_versym {
        push_u16(&mut image, 0);
        for &k in &order {
            push_u16(&mut image, syms[k].versym);
        }
    }
    let verdef_off = image.len();
    for i in 0..verdefs.len() {
        let last = i + 1 == verdefs.len();
        push_u16(&mut image, 1);
        push_u16(&mut image, 0);
        push_u16(&mut image, verdefs[i].0);
        push_u16(&mut image, 1);
        push_u32(&mut image, 0);
        push_u32(&mut image, 20);
        push_u32(&mut image, if last { 0 } else { 28 });
        push_u32(&mut image, verdef_name_off[i]);
        push_u32(&mut image, 0);
    }
    let verneed_off = image.len();
    for i in 0..verneeds.len() {
        let last = i + 1 == verneeds.len();
        push_u16(&mut image, 1);
        push_u16(&mut image, 1);
        push_u32(&mut image, 0);
        push_u32(&mut image, 16);
        push_u32(&mut image, if last { 0 } else { 32 });
        push_u32(&mut image, 0);
        push_u16(&mut image, 0);
        push_u16(&mut image, verneeds[i].0);
        push_u32(&mut image, verneed_name_off[i]);
        push_u32(&mut image, 0);
    }

    let dynamic = ElfDynamic {
        hashtab: hashtab_off,
        symtab: symtab_off,
        symtab_len: 1 + syms.len(),
        strtab: strtab_off,
        strtab_size: strtab.len(),
        version_ids: if with_versym { Some(versym_off) } else { None },
        verneed: if verneeds.is_empty() {
            None
        } else {
            Some((verneed_off, verneeds.len()))
        },
        verdef: if verdefs.is_empty() {
            None
        } else {
            Some((verdef_off, verdefs.len()))
        },
    };
    Built { image, dynamic }
}

fn build_plain(syms: &[TestSym], nbucket: u32) -> Built {
    build(syms, nbucket, 6, false, &[], &[], false)
}

fn resolve(b: &Built) -> SymbolData {
    match SymbolData::new(&b.image, &b.dynamic) {
        Ok(sd) => sd,
        Err(e) => panic!("construction failed: {:?}", e),
    }
}

#[test]
fn gnu_hash_known_values() {
    assert_eq!(ElfGnuHash::gnu_hash(b""), 5381);
    assert_eq!(ElfGnuHash::gnu_hash(b"printf"), 0x156b2bb8);
    assert_eq!(ElfGnuHash::gnu_hash(b"foo"), 0x0b887389);
    assert_eq!(ElfGnuHash::gnu_hash(b"exit"), {
        let mut h: u32 = 5381;
        for &b in b"exit" {
            h = h.wrapping_mul(33).wrapping_add(b as u32);
        }
        h
    });
}

#[test]
fn tiny_image_single_symbol() {
    let b = build_plain(&[sym(b"foo", 0x1000)], 1);
    let sd = resolve(&b);
    let hit = sd.get_sym(&SymbolInfo::new(b"foo")).expect("foo must resolve");
    assert_eq!(hit.st_value, 0x1000);
    assert_eq!(hit.st_shndx, 1);
    assert!(sd.get_sym(&SymbolInfo::new(b"bar")).is_none());
}

#[test]
fn chain_collision_same_bucket() {
    let b = build_plain(&[sym(b"aaaa", 0x10), sym(b"aaab", 0x20)], 1);
    let sd = resolve(&b);
    assert_eq!(sd.get_sym(&SymbolInfo::new(b"aaaa")).unwrap().st_value, 0x10);
    assert_eq!(sd.get_sym(&SymbolInfo::new(b"aaab")).unwrap().st_value, 0x20);
    assert!(sd.get_sym(&SymbolInfo::new(b"aaac")).is_none());
}

#[test]
fn hash_low_bit_set_and_clear_both_findable() {
    // "aaaa" hashes odd, "aaab" even: the chain-end bit reuse must not
    // hide either parity.
    assert_eq!(ElfGnuHash::gnu_hash(b"aaaa") & 1, 1);
    assert_eq!(ElfGnuHash::gnu_hash(b"aaab") & 1, 0);
    let b = build_plain(&[sym(b"aaaa", 1), sym(b"aaab", 2)], 2);
    let sd = resolve(&b);
    assert_eq!(sd.get_sym(&SymbolInfo::new(b"aaaa")).unwrap().st_value, 1);
    assert_eq!(sd.get_sym(&SymbolInfo::new(b"aaab")).unwrap().st_value, 2);
}

#[test]
fn chain_parity_false_match_skipped() {
    // gnu_hash("aaab") and gnu_hash("aaac") differ only in the low
    // bit, so the walker sees a hash match on "aaab" first and must
    // move past it on the name comparison.
    assert_eq!(
        ElfGnuHash::gnu_hash(b"aaab") | 1,
        ElfGnuHash::gnu_hash(b"aaac") | 1
    );
    let b = build_plain(&[sym(b"aaab", 0x111), sym(b"aaac", 0x222)], 1);
    let sd = resolve(&b);
    let hit = sd.get_sym(&SymbolInfo::new(b"aaac")).expect("aaac must resolve");
    assert_eq!(hit.st_value, 0x222);
}

#[test]
fn bloom_reject_without_bucket_read() {
    let b = build_plain(&[sym(b"foo", 1)], 1);
    let sd = resolve(&b);
    let h = ElfGnuHash::gnu_hash(b"bar");
    // Both probes miss, so lookup ends in the filter stage.
    assert!(!sd.hashtab.bloom_filter(h));
    assert!(sd.get_sym(&SymbolInfo::new(b"bar")).is_none());
}

#[test]
fn empty_bucket_short_circuit() {
    // A saturated bloom filter lets "bar" through; its bucket holds no
    // chain, so lookup ends with the bucket read.
    let b = build(&[sym(b"foo", 1)], 2, 6, true, &[], &[], false);
    let sd = resolve(&b);
    let h = ElfGnuHash::gnu_hash(b"bar");
    assert!(sd.hashtab.bloom_filter(h));
    assert_eq!(sd.hashtab.bucket_start(h), 0);
    assert!(sd.get_sym(&SymbolInfo::new(b"bar")).is_none());
}

#[test]
fn empty_name_matches_no_symbol() {
    let b = build_plain(&[sym(b"foo", 1), sym(b"bar", 2)], 1);
    let sd = resolve(&b);
    assert!(sd.get_sym(&SymbolInfo::new(b"")).is_none());
}

#[test]
fn first_symbol_at_base_reachable() {
    let b = build_plain(&[sym(b"alpha", 1), sym(b"beta", 2), sym(b"gamma", 3)], 1);
    let sd = resolve(&b);
    // With one bucket the chain starts at the symbol base itself.
    let (first, info) = sd.rel_symbol(1);
    let hit = sd.get_sym(&SymbolInfo::new(info.name)).expect("chain head must resolve");
    assert_eq!(hit.st_value, first.st_value);
    assert_eq!(
        sd.hashtab.bucket_start(ElfGnuHash::gnu_hash(info.name)),
        1
    );
}

#[test]
fn last_symbol_of_longest_chain_reachable() {
    let syms = [sym(b"alpha", 1), sym(b"beta", 2), sym(b"gamma", 3), sym(b"delta", 4)];
    let b = build_plain(&syms, 1);
    let sd = resolve(&b);
    // One bucket: every symbol sits in a single four-link chain.
    let (last, info) = sd.rel_symbol(4);
    let hit = sd.get_sym(&SymbolInfo::new(info.name)).expect("chain tail must resolve");
    assert_eq!(hit.st_value, last.st_value);
}

#[test]
fn lookup_is_deterministic() {
    let b = build_plain(&[sym(b"foo", 7), sym(b"bar", 8)], 2);
    let sd = resolve(&b);
    let a = *sd.get_sym(&SymbolInfo::new(b"foo")).unwrap();
    let c = *sd.get_sym(&SymbolInfo::new(b"foo")).unwrap();
    assert_eq!(a, c);
}

#[test]
fn rel_symbol_round_trip() {
    let syms = [sym(b"alpha", 1), sym(b"beta", 2), sym(b"gamma", 3)];
    let b = build_plain(&syms, 2);
    let sd = resolve(&b);
    for idx in 1..4usize {
        let (record, info) = sd.rel_symbol(idx);
        let expected = *record;
        let hit = sd.get_sym(&SymbolInfo::new(info.name)).expect("defined name must resolve");
        assert_eq!(*hit, expected);
    }
}

#[test]
fn rel_symbol_name_offsets_inside_strtab() {
    let syms = [sym(b"alpha", 1), sym(b"beta", 2)];
    let b = build_plain(&syms, 1);
    let sd = resolve(&b);
    for idx in 0..3usize {
        let (record, info) = sd.rel_symbol(idx);
        assert!((record.st_name as usize) < b.dynamic.strtab_size);
        let fetched = sd.strtab().get(record.st_name as usize).expect("offset must be valid");
        assert_eq!(fetched, info.name);
    }
}

#[test]
fn versioned_lookup() {
    let default_sym = TestSym { name: b"malloc", shndx: 1, value: 0xaaa, versym: 2 };
    let hidden_sym = TestSym { name: b"malloc", shndx: 1, value: 0xbbb, versym: 3 | 0x8000 };
    let b = build(
        &[default_sym, hidden_sym],
        1,
        6,
        false,
        &[(2, b"GLIBC_2.2.5"), (3, b"GLIBC_2.17")],
        &[],
        true,
    );
    let sd = resolve(&b);
    let plain = sd.get_sym(&SymbolInfo::new(b"malloc")).expect("default version must resolve");
    assert_eq!(plain.st_value, 0xaaa);
    let old = sd
        .get_sym(&SymbolInfo::new_with_version(b"malloc", b"GLIBC_2.17"))
        .expect("hidden version must resolve when named");
    assert_eq!(old.st_value, 0xbbb);
    let exact = sd
        .get_sym(&SymbolInfo::new_with_version(b"malloc", b"GLIBC_2.2.5"))
        .expect("default version must resolve when named");
    assert_eq!(exact.st_value, 0xaaa);
    assert!(sd
        .get_sym(&SymbolInfo::new_with_version(b"malloc", b"GLIBC_9.99"))
        .is_none());
}

#[test]
fn version_matrix_local_and_global() {
    let local = TestSym { name: b"hidden_local", shndx: 1, value: 1, versym: 0 };
    let global = TestSym { name: b"plain_global", shndx: 1, value: 2, versym: 1 };
    let b = build(&[local, global], 1, 6, false, &[], &[], true);
    let sd = resolve(&b);
    // Version index 0 never matches.
    assert!(sd.get_sym(&SymbolInfo::new(b"hidden_local")).is_none());
    // Version index 1 matches only unversioned queries.
    assert_eq!(sd.get_sym(&SymbolInfo::new(b"plain_global")).unwrap().st_value, 2);
    assert!(sd
        .get_sym(&SymbolInfo::new_with_version(b"plain_global", b"GLIBC_2.17"))
        .is_none());
}

#[test]
fn hidden_symbol_invisible_to_unversioned_query() {
    let hidden = TestSym { name: b"secretfn", shndx: 1, value: 9, versym: 2 | 0x8000 };
    let b = build(&[hidden], 1, 6, false, &[(2, b"V2")], &[], true);
    let sd = resolve(&b);
    assert!(sd.get_sym(&SymbolInfo::new(b"secretfn")).is_none());
    assert_eq!(
        sd.get_sym(&SymbolInfo::new_with_version(b"secretfn", b"V2")).unwrap().st_value,
        9
    );
}

#[test]
fn requirement_reported_for_versioned_symbol() {
    let versioned = TestSym { name: b"gmtime", shndx: 1, value: 4, versym: 3 };
    let plain = TestSym { name: b"localtime", shndx: 1, value: 5, versym: 1 };
    let b = build(&[versioned, plain], 1, 6, false, &[], &[(3, b"GLIBC_2.17")], true);
    let sd = resolve(&b);
    let mut found_versioned = false;
    let mut found_plain = false;
    for idx in 1..3usize {
        let (_, info) = sd.rel_symbol(idx);
        if info.name == b"gmtime" {
            assert_eq!(info.version, Some(&b"GLIBC_2.17"[..]));
            found_versioned = true;
        }
        if info.name == b"localtime" {
            assert_eq!(info.version, None);
            found_plain = true;
        }
    }
    assert!(found_versioned && found_plain);
}

#[test]
fn truncated_hash_header_rejected() {
    let b = build_plain(&[sym(b"foo", 1)], 1);
    let mut dynamic = b.dynamic;
    dynamic.hashtab = b.image.len() - 4;
    match SymbolData::new(&b.image, &dynamic) {
        Err(e) => assert_eq!(e, ElfError::MalformedHashTable),
        Ok(_) => panic!("truncated header must be rejected"),
    }
}

#[test]
fn zero_buckets_rejected() {
    let b = build_plain(&[sym(b"foo", 1)], 1);
    let mut image = b.image.clone();
    image[0..4].copy_from_slice(&0u32.to_le_bytes());
    match SymbolData::new(&image, &b.dynamic) {
        Err(e) => assert_eq!(e, ElfError::MalformedHashTable),
        Ok(_) => panic!("zero buckets must be rejected"),
    }
}

#[test]
fn bucket_past_symtab_rejected() {
    let b = build_plain(&[sym(b"foo", 1)], 1);
    let mut image = b.image.clone();
    // The single bucket sits right after the 16-byte header and the
    // one bloom word.
    image[24..28].copy_from_slice(&9u32.to_le_bytes());
    match SymbolData::new(&image, &b.dynamic) {
        Err(e) => assert_eq!(e, ElfError::MalformedHashTable),
        Ok(_) => panic!("bucket past the symbol table must be rejected"),
    }
}

#[test]
fn string_table_without_final_nul_rejected() {
    let b = build_plain(&[sym(b"foo", 1)], 1);
    let mut dynamic = b.dynamic;
    // Drop the trailing NUL from the table's extent.
    dynamic.strtab_size -= 1;
    match SymbolData::new(&b.image, &dynamic) {
        Err(e) => assert_eq!(e, ElfError::MalformedStringTable),
        Ok(_) => panic!("unterminated string table must be rejected"),
    }
}

#[test]
fn symbol_name_outside_strtab_rejected() {
    let b = build_plain(&[sym(b"foo", 1)], 1);
    let mut image = b.image.clone();
    // Point the first real symbol's name outside the string table.
    let name_field = b.dynamic.symtab + 24;
    image[name_field..name_field + 4].copy_from_slice(&0xffffu32.to_le_bytes());
    match SymbolData::new(&image, &b.dynamic) {
        Err(e) => assert_eq!(e, ElfError::MalformedSymbolTable),
        Ok(_) => panic!("out-of-range name offset must be rejected"),
    }
}

#[test]
fn version_table_outside_image_rejected() {
    let b = build(&[sym(b"foo", 1)], 1, 6, false, &[], &[(2, b"V2")], true);
    let mut dynamic = b.dynamic;
    dynamic.verneed = Some((b.image.len() + 8, 1));
    match SymbolData::new(&b.image, &dynamic) {
        Err(e) => assert_eq!(e, ElfError::MalformedVersionTable),
        Ok(_) => panic!("version table outside the image must be rejected"),
    }
}

#[test]
fn unterminated_chain_walk_stays_bounded() {
    // Clear the chain-end bit of the only chain: the walker must stop
    // at the end of the symbol table instead of running on.
    let b = build(&[sym(b"foo", 1)], 1, 6, true, &[], &[], false);
    let mut image = b.image.clone();
    let chain_off = 16 + 8 + 4;
    image[chain_off] &= 0xfe;
    let sd = match SymbolData::new(&image, &b.dynamic) {
        Ok(sd) => sd,
        Err(e) => panic!("construction failed: {:?}", e),
    };
    assert!(sd.get_sym(&SymbolInfo::new(b"bar")).is_none());
    assert_eq!(sd.get_sym(&SymbolInfo::new(b"foo")).unwrap().st_value, 1);
}

#[test]
fn string_table_get() {
    let table = ElfStringTable::new(vec![0, b'f', b'o', b'o', 0, b'b', b'a', b'r', 0]);
    assert_eq!(table.get(1).unwrap(), b"foo");
    assert_eq!(table.get(5).unwrap(), b"bar");
    assert_eq!(table.get(2).unwrap(), b"oo");
    assert_eq!(table.get(4).unwrap(), b"");
    assert_eq!(table.get(9), Err(ElfError::MalformedStringTable));
    assert_eq!(table.get(100), Err(ElfError::MalformedStringTable));
    let unterminated = ElfStringTable::new(vec![0, b'x', b'y']);
    assert_eq!(unterminated.get(1), Err(ElfError::MalformedStringTable));
}

#[test]
fn bucket_collision_both_names_found() {
    // "foo" and "bar" land in different residues mod 2 only if their
    // hashes differ mod 2; force a shared bucket with one bucket and
    // check both resolve.
    let b = build_plain(&[sym(b"foo", 1), sym(b"bar", 2), sym(b"printf", 3)], 1);
    let sd = resolve(&b);
    assert_eq!(sd.get_sym(&SymbolInfo::new(b"foo")).unwrap().st_value, 1);
    assert_eq!(sd.get_sym(&SymbolInfo::new(b"bar")).unwrap().st_value, 2);
    assert_eq!(sd.get_sym(&SymbolInfo::new(b"printf")).unwrap().st_value, 3);
    assert!(sd.get_sym(&SymbolInfo::new(b"puts")).is_none());
}

#[test]
fn returned_symbol_name_matches_query() {
    let b = build_plain(&[sym(b"alpha", 1), sym(b"beta", 2), sym(b"gamma", 3)], 2);
    let sd = resolve(&b);
    for name in [&b"alpha"[..], b"beta", b"gamma"] {
        let hit = sd.get_sym(&SymbolInfo::new(name)).expect("defined name must resolve");
        // Hits are defined symbols, and their stored name is the query.
        assert_ne!(hit.st_shndx, 0);
        let stored = sd.strtab().get(hit.st_name as usize).unwrap();
        assert_eq!(stored, name);
    }
}

#[test]
fn oversized_bloom_shift_rejected() {
    let b = build_plain(&[sym(b"foo", 1)], 1);
    let mut image = b.image.clone();
    // The shift word is the fourth header word; a shift of 32 or more
    // would make the second bloom probe undefined.
    image[12..16].copy_from_slice(&32u32.to_le_bytes());
    match SymbolData::new(&image, &b.dynamic) {
        Err(e) => assert_eq!(e, ElfError::MalformedHashTable),
        Ok(_) => panic!("oversized bloom shift must be rejected"),
    }
}
