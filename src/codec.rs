//! Compression codecs, checksums and the RSA step, over byte sequences.
//! The outside crates do the work; this module frames what they are given.
use vstd::prelude::*;
use vstd::arithmetic::power::pow;
use crate::be::push_range;
use crate::error::{StoreError, bytes_result};

verus! {

/// What a standard BZIP2 decoder yields from a whole stream, if it accepts it.
pub uninterp spec fn bzip2_decoded(stream: Seq<u8>) -> Option<Seq<u8>>;

/// The standard BZIP2 stream that the encoder, at block size 1, makes of `data`.
pub uninterp spec fn bzip2_encoded(data: Seq<u8>) -> Seq<u8>;

/// What a GZIP decoder yields from a stream, if it accepts it.
pub uninterp spec fn gzip_decoded(stream: Seq<u8>) -> Option<Seq<u8>>;

/// The GZIP stream that the encoder, at its default level, makes of `data`.
pub uninterp spec fn gzip_encoded(data: Seq<u8>) -> Seq<u8>;

/// The IEEE CRC-32 of `data`.
pub uninterp spec fn crc32_of(data: Seq<u8>) -> u32;

/// The Whirlpool digest of `data`.
pub uninterp spec fn whirlpool_of(data: Seq<u8>) -> Seq<u8>;

pub open spec fn option_bytes(r: Option<Vec<u8>>) -> Option<Seq<u8>> {
    match r {
        Some(v) => Some(v@),
        None => None,
    }
}

/// The unsigned number that the bytes spell, most significant first.
pub open spec fn be_value(s: Seq<u8>) -> nat
    decreases s.len(),
{
    if s.len() == 0 {
        0
    } else {
        be_value(s.drop_last()) * 256 + s.last() as nat
    }
}

/// `s` is the shortest big-endian form of its value: one byte for zero,
/// otherwise no leading zero byte.
pub open spec fn is_minimal_be(s: Seq<u8>) -> bool {
    s.len() >= 1 && (s.len() == 1 || s[0] != 0)
}

/// The shortest big-endian form of `n`.
pub open spec fn minimal_be(n: nat) -> Seq<u8>
    decreases n,
{
    if n < 256 {
        seq![n as u8]
    } else {
        minimal_be(n / 256) + seq![(n % 256) as u8]
    }
}

/// The shortest big-endian form of a number is unique.
pub proof fn lemma_minimal_be_unique(s: Seq<u8>)
    requires
        is_minimal_be(s),
    ensures
        s == minimal_be(be_value(s)),
    decreases s.len(),
{
    if s.len() == 1 {
        assert(s.drop_last().len() == 0);
        assert(be_value(s.drop_last()) == 0);
        assert(s.last() == s[0]);
        assert(be_value(s) == s[0] as nat);
        assert(s =~= seq![s[0]]);
    } else {
        let p = s.drop_last();
        assert(p[0] == s[0]);
        lemma_minimal_be_unique(p);
        lemma_be_value_positive(p);
        let n = be_value(s);
        assert(n == be_value(p) * 256 + s.last() as nat);
        assert(n / 256 == be_value(p) && n % 256 == s.last() as nat) by (nonlinear_arith)
            requires
                n == be_value(p) * 256 + s.last() as nat,
                s.last() < 256,
        ;
        assert(s =~= p + seq![s.last()]);
    }
}

proof fn lemma_be_value_positive(s: Seq<u8>)
    requires
        s.len() >= 1,
        s[0] != 0,
    ensures
        be_value(s) >= 1,
        s.len() >= 2 ==> be_value(s) >= 256,
    decreases s.len(),
{
    if s.len() >= 2 {
        let p = s.drop_last();
        assert(p[0] == s[0]);
        lemma_be_value_positive(p);
    } else {
        assert(s.drop_last().len() == 0);
        assert(be_value(s.drop_last()) == 0);
        assert(s.last() == s[0]);
    }
}

/// The magic that on-disk BZIP2 blocks leave out: "BZh1".
pub open spec fn bzip2_magic() -> Seq<u8> {
    seq![0x42u8, 0x5A, 0x68, 0x31]
}

/// Relies on bzip2's `read::BzDecoder`: decoding reads the whole stream
/// and depends on its bytes alone.
#[verifier::external_body]
fn bz_decompress(stream: &[u8]) -> (r: Option<Vec<u8>>)
    ensures
        option_bytes(r) == bzip2_decoded(stream@),
{
    let mut out = Vec::new();
    match std::io::Read::read_to_end(&mut bzip2::read::BzDecoder::new(stream), &mut out) {
        Ok(_) => Some(out),
        Err(_) => None,
    }
}

/// Relies on bzip2's `write::BzEncoder` at `Compression::fast()`, block size
/// 1: the stream depends on the input alone and opens with "BZh1"; writing
/// into a `Vec` does not fail.
#[verifier::external_body]
fn bz_compress(data: &[u8]) -> (r: Option<Vec<u8>>)
    ensures
        r is Some,
        r->Some_0@ == bzip2_encoded(data@),
        r->Some_0@.len() >= 4,
        r->Some_0@.take(4) == bzip2_magic(),
{
    let mut encoder = bzip2::write::BzEncoder::new(Vec::new(), bzip2::Compression::fast());
    match std::io::Write::write_all(&mut encoder, data) {
        Ok(()) => encoder.finish().ok(),
        Err(_) => None,
    }
}

/// Relies on flate2's `read::GzDecoder`: decoding depends on the bytes alone.
#[verifier::external_body]
fn gz_decompress(stream: &[u8]) -> (r: Option<Vec<u8>>)
    ensures
        option_bytes(r) == gzip_decoded(stream@),
{
    let mut out = Vec::new();
    match std::io::Read::read_to_end(&mut flate2::read::GzDecoder::new(stream), &mut out) {
        Ok(_) => Some(out),
        Err(_) => None,
    }
}

/// Relies on flate2's `write::GzEncoder` at `Compression::default()`: the
/// stream depends on the input alone; writing into a `Vec` does not fail.
#[verifier::external_body]
fn gz_compress(data: &[u8]) -> (r: Option<Vec<u8>>)
    ensures
        r is Some,
        r->Some_0@ == gzip_encoded(data@),
{
    let mut encoder = flate2::write::GzEncoder::new(Vec::new(), flate2::Compression::default());
    match std::io::Write::write_all(&mut encoder, data) {
        Ok(()) => encoder.finish().ok(),
        Err(_) => None,
    }
}

/// Relies on `crc32fast::hash`, the IEEE CRC-32 of its input.
#[verifier::external_body]
pub(crate) fn get_crc_checksum(data: &[u8]) -> (r: u32)
    ensures
        r == crc32_of(data@),
{
    crc32fast::hash(data)
}

/// Relies on whirlpool's `Whirlpool` digest, whose output is 64 bytes.
#[verifier::external_body]
pub(crate) fn hash_whirlpool(data: &[u8]) -> (r: Vec<u8>)
    ensures
        r@ == whirlpool_of(data@),
        r@.len() == 64,
{
    let mut hasher = <whirlpool::Whirlpool as whirlpool::Digest>::new();
    whirlpool::Digest::update(&mut hasher, data);
    whirlpool::Digest::finalize(hasher).to_vec()
}

/// Relies on num-bigint's `BigUint::modpow` (which panics on a zero
/// modulus), read from big-endian bytes and written back by `to_bytes_be`,
/// which gives the shortest form: zero as one zero byte, otherwise no
/// leading zero byte.
#[verifier::external_body]
pub(crate) fn encrypt_rsa(data: &[u8], modulus: &[u8], private_key: &[u8]) -> (r: Vec<u8>)
    requires
        be_value(modulus@) > 0,
    ensures
        be_value(r@) == pow(be_value(data@) as int, be_value(private_key@)) % (be_value(modulus@) as int),
        is_minimal_be(r@),
{
    let data = num_bigint::BigUint::from_bytes_be(data);
    let modulus = num_bigint::BigUint::from_bytes_be(modulus);
    let private_key = num_bigint::BigUint::from_bytes_be(private_key);
    data.modpow(&private_key, &modulus).to_bytes_be()
}

/// Decompresses an on-disk BZIP2 block: the magic is put back in front
/// before the standard decoder runs.
pub fn bunzip2(compressed: &[u8]) -> (r: Result<Vec<u8>, StoreError>)
    ensures
        bytes_result(r) == match bzip2_decoded(bzip2_magic() + compressed@) {
            Some(x) => Ok(x),
            None => Err(StoreError::CompressionFailure),
        },
{
    let mut stream: Vec<u8> = Vec::new();
    stream.push(0x42);
    stream.push(0x5A);
    stream.push(0x68);
    stream.push(0x31);
    assert(stream@ =~= bzip2_magic());
    push_range(&mut stream, compressed, 0, compressed.len());
    assert(compressed@.subrange(0, compressed@.len() as int) =~= compressed@);
    match bz_decompress(stream.as_slice()) {
        Some(x) => Ok(x),
        None => Err(StoreError::CompressionFailure),
    }
}

/// Compresses with BZIP2 and strips the four-byte magic, as stored on disk.
pub fn bzip2(uncompressed: &[u8]) -> (r: Result<Vec<u8>, StoreError>)
    ensures
        r is Ok,
        r->Ok_0@ == bzip2_encoded(uncompressed@).skip(4),
        bzip2_magic() + r->Ok_0@ == bzip2_encoded(uncompressed@),
{
    match bz_compress(uncompressed) {
        Some(stream) => {
            if stream.len() < 4 {
                return Err(StoreError::CompressionFailure);
            }
            let mut out: Vec<u8> = Vec::new();
            push_range(&mut out, stream.as_slice(), 4, stream.len());
            assert(out@ =~= stream@.skip(4));
            assert(bzip2_magic() + out@ =~= stream@);
            Ok(out)
        },
        None => Err(StoreError::CompressionFailure),
    }
}

/// Decompresses a GZIP stream.
pub fn gunzip(compressed: &[u8]) -> (r: Result<Vec<u8>, StoreError>)
    ensures
        bytes_result(r) == match gzip_decoded(compressed@) {
            Some(x) => Ok(x),
            None => Err(StoreError::CompressionFailure),
        },
{
    match gz_decompress(compressed) {
        Some(x) => Ok(x),
        None => Err(StoreError::CompressionFailure),
    }
}

/// Compresses into a GZIP stream.
pub fn gzip(uncompressed: &[u8]) -> (r: Result<Vec<u8>, StoreError>)
    ensures
        r is Ok,
        r->Ok_0@ == gzip_encoded(uncompressed@),
{
    match gz_compress(uncompressed) {
        Some(x) => Ok(x),
        None => Err(StoreError::CompressionFailure),
    }
}

/// The Whirlpool digest of a container's raw bytes.
pub fn get_whirlpool_digest(buf: &[u8]) -> (r: Vec<u8>)
    ensures
        r@ == whirlpool_of(buf@),
        r@.len() == 64,
{
    hash_whirlpool(buf)
}

} // verus!
