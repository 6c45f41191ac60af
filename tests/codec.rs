use openrust_fs::StoreError;
use openrust_fs::codec::{bunzip2, bzip2, get_whirlpool_digest, gunzip, gzip};
use openrust_fs::container::{Container, COMPRESSION_BZIP2, COMPRESSION_GZIP, COMPRESSION_NONE};
use openrust_fs::xtea::{decipher_words, decipher_xtea, encipher_words, encipher_xtea};

#[test]
fn xtea_known_vector() {
    let key = [0x00010203, 0x04050607, 0x08090A0B, 0x0C0D0E0F];
    assert_eq!(encipher_words(0x41424344, 0x45464748, &key), (0x497df3d0, 0x72612cb5));
    assert_eq!(decipher_words(0x497df3d0, 0x72612cb5, &key), (0x41424344, 0x45464748));
}

#[test]
fn xtea_buffer_round_trip() {
    let key = [-1, 0x1234_5678, -0x7000_0000, 42];
    let original: Vec<u8> = (0..37u8).collect();
    let mut buf = original.clone();
    encipher_xtea(&mut buf, 5, 37, &key);
    assert_ne!(buf, original);
    assert_eq!(&buf[..5], &original[..5]);
    assert_eq!(&buf[5 + 32..], &original[5 + 32..]);
    decipher_xtea(&mut buf, 5, 37, &key);
    assert_eq!(buf, original);
}

#[test]
fn bzip2_round_trip_without_magic() {
    let data = b"the quick brown fox jumps over the lazy dog".repeat(20);
    let stored = bzip2(&data).unwrap();
    assert_ne!(&stored[..3], b"BZh");
    assert_eq!(bunzip2(&stored).unwrap(), data);
}

#[test]
fn gzip_round_trip() {
    let data = b"abcabcabcabc".to_vec();
    let stored = gzip(&data).unwrap();
    assert_ne!(stored, data);
    assert_eq!(gunzip(&stored).unwrap(), data);
    assert_eq!(gunzip(b"not gzip").unwrap_err(), StoreError::CompressionFailure);
}

#[test]
fn whirlpool_of_empty_input() {
    let d = get_whirlpool_digest(b"");
    assert_eq!(d.len(), 64);
    assert_eq!(&d[..4], &[0x19, 0xFA, 0x61, 0xD7]);
}

#[test]
fn container_uncompressed_with_version() {
    let raw = vec![0, 0, 0, 0, 3, 10, 20, 30, 0xFF, 0xFE];
    let c = Container::decode(&raw).unwrap();
    assert_eq!(c.type_id(), COMPRESSION_NONE);
    assert_eq!(c.data(), &vec![10, 20, 30]);
    assert_eq!(c.version(), -2);
}

#[test]
fn container_without_version_trailer() {
    let raw = vec![0, 0, 0, 0, 2, 7, 8, 1];
    let c = Container::decode(&raw).unwrap();
    assert_eq!(c.data(), &vec![7, 8]);
    assert_eq!(c.version(), -1);
}

#[test]
fn container_errors() {
    assert_eq!(Container::decode(&[0, 0, 0]).unwrap_err(), StoreError::InvalidData);
    assert_eq!(Container::decode(&[0, 0, 0, 0, 9, 1]).unwrap_err(), StoreError::InvalidData);
    assert_eq!(Container::decode(&[3, 0, 0, 0, 0, 0, 0, 0, 0]).unwrap_err(), StoreError::InvalidData);
}

#[test]
fn container_length_mismatch_is_invalid() {
    let stored = gzip(b"hello").unwrap();
    let mut raw = vec![COMPRESSION_GZIP];
    raw.extend_from_slice(&(stored.len() as u32).to_be_bytes());
    raw.extend_from_slice(&6u32.to_be_bytes());
    raw.extend_from_slice(&stored);
    assert_eq!(Container::decode(&raw).unwrap_err(), StoreError::InvalidData);
}

#[test]
fn container_encode_decode_round_trip() {
    for compression in [COMPRESSION_NONE, COMPRESSION_BZIP2, COMPRESSION_GZIP] {
        for version in [-1i16, 0, 7, -300] {
            let payload = b"payload bytes for the container".to_vec();
            let mut c = Container::new(compression, payload.clone());
            c.set_version(version);
            let raw = c.encode().unwrap();
            let d = Container::decode(&raw).unwrap();
            assert_eq!(d.type_id(), compression);
            assert_eq!(d.data(), &payload);
            assert_eq!(d.version(), version);
        }
    }
}

#[test]
fn container_encode_none_layout() {
    let mut c = Container::new(COMPRESSION_NONE, vec![1, 2, 3]);
    c.set_version(0x0102);
    assert_eq!(c.encode().unwrap(), vec![0, 0, 0, 0, 3, 1, 2, 3, 1, 2]);
    assert_eq!(Container::new(5, vec![1]).encode().unwrap_err(), StoreError::InvalidData);
}

#[test]
fn container_keyed_round_trip() {
    let key = [11, -22, 33, -44];
    let payload: Vec<u8> = (0..40u8).collect();
    let mut c = Container::new(COMPRESSION_NONE, payload.clone());
    c.set_version(9);
    let mut raw = c.encode().unwrap();
    let end = 5 + payload.len();
    encipher_xtea(&mut raw, 5, end, &key);
    assert_ne!(&raw[5..13], &payload[..8]);
    let d = Container::decode_with_key(&raw, &key).unwrap();
    assert_eq!(d.data(), &payload);
    assert_eq!(d.version(), 9);
}
