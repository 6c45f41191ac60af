use openrust_fs::StoreError;
use openrust_fs::cache::Cache;
use openrust_fs::checksum_table::{ChecksumTable, Entry};
use openrust_fs::filestore::FileStore;
use openrust_fs::reference_table::ReferenceTable;

fn i16s(v: &[i16]) -> Vec<u8> {
    v.iter().flat_map(|x| x.to_be_bytes()).collect()
}

fn i32s(v: &[i32]) -> Vec<u8> {
    v.iter().flat_map(|x| x.to_be_bytes()).collect()
}

/// A format-6 table with version `version`, flags `flags`, the given id
/// deltas, and children given as delta lists per entry.
fn table_bytes(version: i32, flags: u8, deltas: &[i16], children: &[Vec<i16>]) -> Vec<u8> {
    let n = deltas.len();
    let mut b = vec![6];
    b.extend(i32s(&[version]));
    b.push(flags);
    b.extend((n as u16).to_be_bytes());
    b.extend(i16s(deltas));
    if flags & 1 != 0 {
        b.extend(i32s(&(0..n as i32).map(|i| 1000 + i).collect::<Vec<_>>()));
    }
    b.extend(i32s(&(0..n as i32).map(|i| 2000 + i).collect::<Vec<_>>()));
    if flags & 2 != 0 {
        for i in 0..n {
            b.extend(vec![i as u8 + 1; 64]);
        }
    }
    b.extend(i32s(&(0..n as i32).map(|i| 3000 + i).collect::<Vec<_>>()));
    for c in children {
        b.extend((c.len() as u16).to_be_bytes());
    }
    for c in children {
        b.extend(i16s(c));
    }
    if flags & 1 != 0 {
        let total: usize = children.iter().map(|c| c.len()).sum();
        b.extend(i32s(&(0..total as i32).map(|i| 4000 + i).collect::<Vec<_>>()));
    }
    b
}

#[test]
fn reference_table_ids_follow_delta_order() {
    let bytes = table_bytes(77, 0, &[3, 2, 5], &[vec![], vec![0, 4], vec![1]]);
    let t = ReferenceTable::decode(&bytes).unwrap();
    assert_eq!(t.format(), 6);
    assert_eq!(t.version(), Some(77));
    let ids: Vec<i32> = t.entries().iter().map(|e| e.id()).collect();
    assert_eq!(ids, vec![3, 5, 10]);
    let e = &t.entries()[1];
    assert_eq!(e.crc(), 2001);
    assert_eq!(e.version(), 3001);
    assert_eq!(e.identifier(), None);
    assert_eq!(e.whirlpool(), &[0u8; 64][..]);
    let kids: Vec<i32> = e.entries().iter().map(|c| c.id()).collect();
    assert_eq!(kids, vec![0, 4]);
}

#[test]
fn reference_table_negative_deltas_keep_order() {
    let bytes = table_bytes(1, 0, &[10, -4, 7], &[vec![], vec![], vec![]]);
    let t = ReferenceTable::decode(&bytes).unwrap();
    let ids: Vec<i32> = t.entries().iter().map(|e| e.id()).collect();
    assert_eq!(ids, vec![10, 6, 13]);
}

#[test]
fn reference_table_with_identifiers_and_whirlpool() {
    let bytes = table_bytes(5, 3, &[0, 1], &[vec![2, 2], vec![]]);
    let t = ReferenceTable::decode(&bytes).unwrap();
    assert_eq!(t.flags(), 3);
    let e0 = &t.entries()[0];
    assert_eq!(e0.identifier(), Some(1000));
    assert_eq!(e0.whirlpool(), &[1u8; 64][..]);
    let kids: Vec<(i32, Option<i32>)> = e0.entries().iter().map(|c| (c.id(), c.identifier())).collect();
    assert_eq!(kids, vec![(2, Some(4000)), (4, Some(4001))]);
    assert_eq!(t.entries()[1].whirlpool(), &[2u8; 64][..]);
}

#[test]
fn reference_table_old_format_has_no_version() {
    let mut bytes = table_bytes(0, 0, &[4], &[vec![]]);
    bytes.drain(0..5);
    bytes.insert(0, 5);
    let t = ReferenceTable::decode(&bytes).unwrap();
    assert_eq!(t.version(), None);
    assert_eq!(t.entries()[0].id(), 4);
}

#[test]
fn reference_table_truncated_or_duplicate_is_invalid() {
    let bytes = table_bytes(1, 1, &[1, 2], &[vec![1], vec![1]]);
    assert_eq!(ReferenceTable::decode(&bytes[..bytes.len() - 1]).unwrap_err(), StoreError::InvalidData);
    assert_eq!(ReferenceTable::decode(&[]).unwrap_err(), StoreError::InvalidData);
    let dup = table_bytes(1, 0, &[1, 0], &[vec![], vec![]]);
    assert_eq!(ReferenceTable::decode(&dup).unwrap_err(), StoreError::InvalidData);
}

#[test]
fn reference_table_repeated_child_keeps_first_place_and_last_identifier() {
    let bytes = table_bytes(1, 1, &[1], &[vec![3, 2, -2]]);
    let t = ReferenceTable::decode(&bytes).unwrap();
    let kids: Vec<(i32, Option<i32>)> = t.entries()[0].entries().iter().map(|c| (c.id(), c.identifier())).collect();
    assert_eq!(kids, vec![(3, Some(4002)), (5, Some(4001))]);
}

#[test]
fn checksum_table_plain_encoding() {
    let mut t = ChecksumTable::new(2);
    t.push(Entry::new(0x01020304, -1, vec![0; 64]));
    t.push(Entry::new(5, 6, vec![0; 64]));
    assert_eq!(t.encode(), vec![1, 2, 3, 4, 0xFF, 0xFF, 0xFF, 0xFF, 0, 0, 0, 5, 0, 0, 0, 6]);
    assert_eq!(t.get_entry(1).unwrap().crc(), 5);
    assert!(t.get_entry(2).is_none());
}

#[test]
fn checksum_table_whirlpool_encoding() {
    let mut t = ChecksumTable::new(1);
    t.push(Entry::new(9, 8, vec![7; 64]));
    let out = t.encode_impl(true, None, None);
    assert_eq!(out.len(), 1 + 8 + 64 + 1 + 64);
    assert_eq!(out[0], 1);
    assert_eq!(out[73], 0);
    let digest = openrust_fs::codec::get_whirlpool_digest(&out[..73]);
    assert_eq!(&out[74..], &digest[..]);
}

#[test]
fn checksum_table_signed_trailer() {
    let mut t = ChecksumTable::new(1);
    t.push(Entry::new(1, 1, vec![0; 64]));
    let plain = t.encode_impl(true, None, None);
    // Exponent 1 modulo a number larger than the trailer leaves it unchanged
    // but for leading zero bytes.
    let mut modulus = vec![0xFF; 70];
    modulus[0] = 1;
    let signed = t.encode_impl(true, Some(modulus), Some(vec![1]));
    assert_eq!(&signed[..73], &plain[..73]);
    let trailer = &plain[73..];
    let first = trailer.iter().position(|b| *b != 0).unwrap();
    assert_eq!(&signed[73..], &trailer[first..]);
}

#[test]
fn checksum_table_trailer_raised_to_exponent() {
    let mut t = ChecksumTable::new(1);
    t.push(Entry::new(1, 1, vec![0; 64]));
    let plain = t.encode_impl(true, None, None);
    let last = *plain.last().unwrap() as u32;
    let signed = t.encode_impl(true, Some(vec![1, 0]), Some(vec![2]));
    assert_eq!(&signed[..73], &plain[..73]);
    assert_eq!(&signed[73..], &[(last * last % 256) as u8]);
}

fn sector(id: u16, chunk: u16, next: u32, payload: &[u8]) -> Vec<u8> {
    let mut s = Vec::new();
    s.extend_from_slice(&id.to_be_bytes());
    s.extend_from_slice(&chunk.to_be_bytes());
    s.extend_from_slice(&next.to_be_bytes()[1..]);
    s.push(255);
    let mut body = payload.to_vec();
    body.resize(512, 0);
    s.extend(body);
    s
}

/// A store whose meta index holds, for each version given, a reference
/// table in an uncompressed container (one sector each).
fn store_with_tables(versions: &[i32]) -> (FileStore, Vec<Vec<u8>>) {
    let mut data = vec![0u8; 520];
    let mut meta = Vec::new();
    let mut raws = Vec::new();
    for (k, v) in versions.iter().enumerate() {
        let table = table_bytes(*v, 0, &[0], &[vec![]]);
        let mut raw = vec![0];
        raw.extend((table.len() as u32).to_be_bytes());
        raw.extend(table);
        raw.extend([0, 1]);
        meta.extend(&(raw.len() as u32).to_be_bytes()[1..]);
        meta.extend(&((k + 1) as u32).to_be_bytes()[1..]);
        data.extend(sector(k as u16, 0, 0, &raw));
        raws.push(raw);
    }
    let indices = vec![Vec::new(); versions.len()];
    (FileStore::new(data, indices, meta).unwrap(), raws)
}

#[test]
fn checksum_content_lists_crc_and_version_per_type() {
    let (store, raws) = store_with_tables(&[11, 22, 33]);
    let cache = Cache::new(store);
    let table = cache.create_checksum_table().unwrap();
    let got: Vec<(u32, i32)> = table.entries().iter().map(|e| (e.crc(), e.version())).collect();
    let want: Vec<(u32, i32)> = raws.iter().zip([11, 22, 33]).map(|(r, v)| (crc32fast::hash(r), v)).collect();
    assert_eq!(got, want);
    let mut encoded = Vec::new();
    for (c, v) in want {
        encoded.extend(c.to_be_bytes());
        encoded.extend(v.to_be_bytes());
    }
    assert_eq!(table.encode(), encoded);
}

#[test]
fn checksum_table_is_stable_across_rebuilds() {
    let (a, _) = store_with_tables(&[4, 5]);
    let (b, _) = store_with_tables(&[4, 5]);
    let ta = Cache::new(a).create_checksum_table().unwrap();
    let tb = Cache::new(b).create_checksum_table().unwrap();
    for i in 0..2 {
        let (x, y) = (ta.get_entry(i).unwrap(), tb.get_entry(i).unwrap());
        assert_eq!(x.crc(), y.crc());
        assert_eq!(x.whirlpool(), y.whirlpool());
        assert_ne!(x.whirlpool(), &[0u8; 64][..]);
    }
}

#[test]
fn checksum_table_fails_on_a_broken_chain() {
    let meta = vec![0, 0, 10, 0, 0, 4];
    let store = FileStore::new(vec![0u8; 520], vec![Vec::new()], meta).unwrap();
    assert_eq!(Cache::new(store).create_checksum_table().unwrap_err(), StoreError::NotFound);
}

#[test]
fn checksum_table_tolerates_missing_tables() {
    let store = FileStore::new(Vec::new(), vec![Vec::new(), Vec::new()], Vec::new()).unwrap();
    let table = Cache::new(store).create_checksum_table().unwrap();
    assert_eq!(table.entries().len(), 2);
    assert_eq!(table.entries()[0].crc(), 0);
    assert_eq!(table.entries()[1].version(), 0);
    assert_eq!(table.entries()[1].whirlpool(), &[0u8; 64][..]);
}
