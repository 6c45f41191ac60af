use openrust_fs::StoreError;
use openrust_fs::filestore::FileStore;
use openrust_fs::index::Index;
use openrust_fs::sector::Sector;

fn sector_bytes(id: u16, chunk: u16, next: u32, type_id: u8, payload: &[u8]) -> Vec<u8> {
    let mut s = Vec::new();
    s.extend_from_slice(&id.to_be_bytes());
    s.extend_from_slice(&chunk.to_be_bytes());
    s.extend_from_slice(&next.to_be_bytes()[1..]);
    s.push(type_id);
    let mut body = payload.to_vec();
    body.resize(512, 0);
    s.extend_from_slice(&body);
    s
}

fn index_entry(size: u32, sector: u32) -> Vec<u8> {
    let mut e = Vec::new();
    e.extend_from_slice(&size.to_be_bytes()[1..]);
    e.extend_from_slice(&sector.to_be_bytes()[1..]);
    e
}

/// A store holding one archive of `len` bytes at type 0, file 1, chained
/// over consecutive sectors from sector 1.
fn one_archive_store(len: usize) -> (FileStore, Vec<u8>) {
    let archive: Vec<u8> = (0..len).map(|i| (i * 7 % 251) as u8).collect();
    let mut data = vec![0u8; 520];
    let sectors = (len + 511) / 512;
    for k in 0..sectors {
        let next = if k + 1 < sectors { (k + 2) as u32 } else { 0 };
        let end = std::cmp::min(len, (k + 1) * 512);
        data.extend(sector_bytes(1, k as u16, next, 0, &archive[k * 512..end]));
    }
    let mut idx0 = index_entry(0, 0);
    idx0.extend(index_entry(len as u32, 1));
    let store = FileStore::new(data, vec![idx0], Vec::new()).unwrap();
    (store, archive)
}

#[test]
fn sector_decode_reads_header_and_payload() {
    let bytes = sector_bytes(0x0102, 3, 0x0A0B0C, 7, &[9u8; 512]);
    let s = Sector::decode(&bytes).unwrap();
    assert_eq!(s.id(), 0x0102);
    assert_eq!(s.chunk(), 3);
    assert_eq!(s.next_sector(), 0x0A0B0C);
    assert_eq!(s.type_id(), 7);
    assert_eq!(s.data(), &[9u8; 512][..]);
}

#[test]
fn sector_decode_rejects_wrong_size() {
    assert_eq!(Sector::decode(&[0u8; 519]).unwrap_err(), StoreError::InvalidData);
    assert_eq!(Sector::decode(&[0u8; 521]).unwrap_err(), StoreError::InvalidData);
}

#[test]
fn index_decode_reads_size_and_sector() {
    let i = Index::decode(&[0x01, 0x02, 0x03, 0x00, 0x00, 0x2A]).unwrap();
    assert_eq!(i.size(), 0x010203);
    assert_eq!(i.sector(), 42);
    assert_eq!(Index::decode(&[0u8; 5]).unwrap_err(), StoreError::InvalidData);
}

#[test]
fn read_single_sector_archive() {
    let (store, archive) = one_archive_store(100);
    assert_eq!(store.read(0, 1).unwrap(), archive);
}

#[test]
fn read_multi_sector_archive_has_index_size() {
    for len in [512usize, 513, 1024, 1500] {
        let (store, archive) = one_archive_store(len);
        let out = store.read(0, 1).unwrap();
        assert_eq!(out.len(), len);
        assert_eq!(out, archive);
    }
}

#[test]
fn read_empty_entry_gives_no_bytes() {
    let (store, _) = one_archive_store(10);
    assert_eq!(store.read(0, 0).unwrap(), Vec::<u8>::new());
}

#[test]
fn read_past_index_is_not_found() {
    let (store, _) = one_archive_store(10);
    assert_eq!(store.read(0, 2).unwrap_err(), StoreError::NotFound);
    assert_eq!(store.read(1, 0).unwrap_err(), StoreError::NotFound);
    assert_eq!(store.read(255, 0).unwrap_err(), StoreError::NotFound);
}

#[test]
fn read_sector_past_data_is_not_found() {
    let idx0 = index_entry(10, 5);
    let store = FileStore::new(vec![0u8; 1040], vec![idx0], Vec::new()).unwrap();
    assert_eq!(store.read(0, 0).unwrap_err(), StoreError::NotFound);
}

#[test]
fn read_out_of_order_chunk_is_invalid() {
    let mut data = vec![0u8; 520];
    data.extend(sector_bytes(1, 1, 0, 0, &[1u8; 10]));
    let store = FileStore::new(data, vec![index_entry(10, 1)], Vec::new()).unwrap();
    assert_eq!(store.read(0, 0).unwrap_err(), StoreError::InvalidData);
}

#[test]
fn store_needs_an_index() {
    assert_eq!(FileStore::new(Vec::new(), Vec::new(), Vec::new()).unwrap_err(), StoreError::NotFound);
}

#[test]
fn counts_of_types_and_files() {
    let (store, _) = one_archive_store(10);
    assert_eq!(store.get_type_count(), 1);
    assert_eq!(store.get_file_count(0).unwrap(), 2);
    assert_eq!(store.get_file_count(255).unwrap(), 0);
    assert_eq!(store.get_file_count(3).unwrap_err(), StoreError::NotFound);
}
