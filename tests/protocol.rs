use openrust_fs::StoreError;
use openrust_fs::cache::Cache;
use openrust_fs::checksum_table::{ChecksumTable, Entry};
use openrust_fs::filestore::FileStore;
use openrust_fs::update::{decode_frame, dispatch, encode_response, Frame, GameMessage, GameState};

fn sector(chunk: u16, next: u32, payload: &[u8]) -> Vec<u8> {
    let mut s = Vec::new();
    s.extend_from_slice(&5u16.to_be_bytes());
    s.extend_from_slice(&chunk.to_be_bytes());
    s.extend_from_slice(&next.to_be_bytes()[1..]);
    s.push(2);
    let mut body = payload.to_vec();
    body.resize(512, 0);
    s.extend(body);
    s
}

/// A store whose archive (2, 5) is `archive`, and whose other types are empty.
fn store_with(archive: &[u8]) -> FileStore {
    let mut data = vec![0u8; 520];
    let sectors = (archive.len() + 511) / 512;
    for k in 0..sectors {
        let next = if k + 1 < sectors { (k + 2) as u32 } else { 0 };
        let end = std::cmp::min(archive.len(), (k + 1) * 512);
        data.extend(sector(k as u16, next, &archive[k * 512..end]));
    }
    let mut idx2 = vec![0u8; 30];
    idx2.extend(&(archive.len() as u32).to_be_bytes()[1..]);
    idx2.extend(&1u32.to_be_bytes()[1..]);
    FileStore::new(data, vec![Vec::new(), Vec::new(), idx2], Vec::new()).unwrap()
}

fn sample_table() -> ChecksumTable {
    let mut t = ChecksumTable::new(2);
    t.push(Entry::new(0xAABBCCDD, 3, vec![0; 64]));
    t.push(Entry::new(1, 2, vec![0; 64]));
    t
}

/// Runs the handshake of S1 and gives the state it leaves.
fn handshake_ok() -> GameState {
    let (state, used, frame) = decode_frame(GameState::Handshake, &[0x0F, 0x00, 0x00, 0x02, 0x12]).unwrap();
    assert_eq!(used, 5);
    assert_eq!(frame, Some(Frame::Status { status_id: 0 }));
    assert_eq!(GameMessage::UpdateStatus { status_id: 0 }.encode(), vec![0]);
    state
}

#[test]
fn handshake_ok_then_checksum_request() {
    let state = handshake_ok();
    assert_eq!(state, GameState::Update);
    // The frame is opcode, type, then a big-endian file id.
    let (_, used, frame) = decode_frame(state, &[0x01, 0xFF, 0xFF, 0x00]).unwrap();
    assert_eq!(used, 4);
    assert_eq!(frame, Some(Frame::Request { type_id: 255, file_id: 0xFF00, priority: true }));
    let (_, used, frame) = decode_frame(state, &[0x01, 0xFF, 0x00, 0xFF]).unwrap();
    assert_eq!(used, 4);
    assert_eq!(frame, Some(Frame::Request { type_id: 255, file_id: 255, priority: true }));
    let store = store_with(&[1, 2, 3]);
    let table = sample_table();
    let payload = dispatch(&store, &table, 255, 255).unwrap();
    let mut want = vec![0, 0, 0, 0, 16];
    want.extend(table.encode());
    assert_eq!(payload, want);
    let out = encode_response(255, 255, true, &payload);
    assert_eq!(&out[..4], &[0xFF, 0x00, 0xFF, 0x00]);
    assert_eq!(&out[4..], &payload[1..]);
}

#[test]
fn handshake_out_of_date() {
    let (state, used, frame) = decode_frame(GameState::Handshake, &[0x0F, 0x00, 0x00, 0x02, 0x11]).unwrap();
    assert_eq!(state, GameState::Handshake);
    assert_eq!(used, 5);
    assert_eq!(frame, Some(Frame::Status { status_id: 6 }));
    assert_eq!(decode_frame(state, &[0x00, 0x02, 0x00, 0x05]).unwrap_err(), StoreError::InvalidData);
}

#[test]
fn handshake_wrong_service_and_partial() {
    assert_eq!(decode_frame(GameState::Handshake, &[0x0E]).unwrap_err(), StoreError::InvalidData);
    let (state, used, frame) = decode_frame(GameState::Handshake, &[0x0F, 0x00]).unwrap();
    assert_eq!((state, used, frame), (GameState::Handshake, 0, None));
}

#[test]
fn normal_file_request() {
    let state = handshake_ok();
    let (_, used, frame) = decode_frame(state, &[0x00, 0x02, 0x00, 0x05]).unwrap();
    assert_eq!(used, 4);
    assert_eq!(frame, Some(Frame::Request { type_id: 2, file_id: 5, priority: false }));
    let archive = vec![2, 10, 11, 12, 0, 9];
    let store = store_with(&archive);
    let payload = dispatch(&store, &sample_table(), 2, 5).unwrap();
    assert_eq!(payload, vec![2, 10, 11, 12]);
    let msg = GameMessage::FileResponse { type_id: 2, file_id: 5, priority: false, container: payload };
    assert_eq!(msg.encode(), vec![0x02, 0x00, 0x05, 0x82, 10, 11, 12]);
}

#[test]
fn unknown_opcode_is_discarded() {
    let state = handshake_ok();
    let bytes = [0x07, 0xAA, 0xBB, 0xCC, 0x00, 0x02, 0x00, 0x05];
    let (_, used, frame) = decode_frame(state, &bytes).unwrap();
    assert_eq!(used, 8);
    assert_eq!(frame, Some(Frame::Request { type_id: 2, file_id: 5, priority: false }));
}

#[test]
fn partial_request_waits_for_more() {
    let state = handshake_ok();
    let (state, used, frame) = decode_frame(state, &[0x00, 0x02]).unwrap();
    assert_eq!((used, frame), (0, None));
    let (_, used, frame) = decode_frame(state, &[0x00, 0x02, 0x00, 0x05]).unwrap();
    assert_eq!(used, 4);
    assert_eq!(frame, Some(Frame::Request { type_id: 2, file_id: 5, priority: false }));
}

#[test]
fn dispatch_errors() {
    let store = store_with(&[1, 2, 3]);
    let table = sample_table();
    assert_eq!(dispatch(&store, &table, 9, 0).unwrap_err(), StoreError::NotFound);
    assert_eq!(dispatch(&store, &table, 2, 6).unwrap_err(), StoreError::NotFound);
    let short = store_with(&[1, 2]);
    assert_eq!(dispatch(&short, &table, 2, 5).unwrap_err(), StoreError::InvalidData);
}

#[test]
fn response_blocks_are_512_aligned() {
    for len in [1usize, 509, 510, 1020, 1021, 2000] {
        let payload: Vec<u8> = (0..len).map(|i| (i % 200) as u8).collect();
        let out = encode_response(1, 2, true, &payload);
        let l = len - 1;
        let seps = if l > 508 { (l - 508 + 510) / 511 } else { 0 };
        assert_eq!(out.len(), 4 + l + seps);
        let mut rebuilt = out[4..std::cmp::min(out.len(), 512)].to_vec();
        let mut pos = 512;
        while pos < out.len() {
            assert_eq!(out[pos], 0xFF);
            let end = std::cmp::min(out.len(), pos + 512);
            rebuilt.extend_from_slice(&out[pos + 1..end]);
            pos += 512;
        }
        assert_eq!(rebuilt, payload[1..].to_vec());
    }
}

#[test]
fn framing_formula_on_whole_blocks() {
    let payload = vec![3u8; 1 + 508 + 511 * 2];
    let out = encode_response(0, 0, false, &payload);
    assert_eq!(out.len(), 4 + (508 + 511 * 2) + 2);
    assert_eq!(out[3], 0x83);
}

#[test]
fn checksum_request_through_cache() {
    let mut data = vec![0u8; 520];
    data.extend(sector(0, 0, &[0, 0, 0, 0, 1, 9]));
    let meta = vec![0, 0, 6, 0, 0, 1];
    let store = FileStore::new(data, vec![Vec::new()], meta).unwrap();
    let cache = Cache::new(store);
    assert_eq!(cache.get_type_count(), 1);
    assert_eq!(cache.create_checksum_table().unwrap_err(), StoreError::InvalidData);
    assert_eq!(cache.store().read(255, 0).unwrap(), vec![0, 0, 0, 0, 1, 9]);
}
