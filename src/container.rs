//! The compression envelope around an archive's bytes: a compression code,
//! the stored length, the uncompressed length when compressed, the stored
//! bytes and an optional trailing version.
use vstd::prelude::*;
use vstd::slice::slice_subrange;
use crate::be::{be_u32, be_i16, u16_bytes, u32_bytes, read_u32, read_i16, push_u16, push_u32, push_range,
    lemma_u32_round_trip, lemma_u16_round_trip};
use crate::codec::{bzip2_decoded, bzip2_encoded, gzip_decoded, gzip_encoded, bzip2_magic, bunzip2, bzip2, gunzip, gzip};
use crate::error::StoreError;
use crate::xtea::{decipher_range, encipher_range, decipher_xtea, lemma_xtea_inverse};

verus! {

/// Offset of the stored bytes (or of the uncompressed length) in a container.
pub const DATA_OFFSET: usize = 5;
pub const COMPRESSION_NONE: u8 = 0;
pub const COMPRESSION_BZIP2: u8 = 1;
pub const COMPRESSION_GZIP: u8 = 2;

/// A decoded container: the compression code, the uncompressed payload and
/// the version (-1 when there is none).
#[derive(Debug)]
pub struct Container {
    type_id: u8,
    data: Vec<u8>,
    version: i16,
}

pub ghost struct ContainerView {
    pub compression: u8,
    pub data: Seq<u8>,
    pub version: i16,
}

impl View for Container {
    type V = ContainerView;

    closed spec fn view(&self) -> ContainerView {
        ContainerView { compression: self.type_id, data: self.data@, version: self.version }
    }
}

/// The all-zero key, which stands for "not enciphered".
pub open spec fn key_is_null(key: Seq<i32>) -> bool {
    key[0] == 0 && key[1] == 0 && key[2] == 0 && key[3] == 0
}

/// The end of the enciphered region: the stored bytes, and the uncompressed
/// length before them when compressed.
pub open spec fn cipher_end(s: Seq<u8>) -> int {
    5 + be_u32(s, 1) + if s[0] == 0 { 0int } else { 4int }
}

/// `s` with its enciphered region deciphered, if the region fits.
pub open spec fn deciphered(s: Seq<u8>, key: Seq<i32>) -> Option<Seq<u8>> {
    if key_is_null(key) {
        Some(s)
    } else if cipher_end(s) > s.len() {
        None
    } else {
        Some(decipher_range(s, 5, ((cipher_end(s) - 5) / 8) as nat, key))
    }
}

/// The version that follows the payload at `at`, or -1 when under two bytes follow.
pub open spec fn trailing_version(s: Seq<u8>, at: int) -> i16 {
    if s.len() - at >= 2 {
        be_i16(s, at) as i16
    } else {
        -1i16
    }
}

/// Parses a container whose bytes are in the clear.
pub open spec fn parse_container(s: Seq<u8>) -> Result<ContainerView, StoreError> {
    let c = s[0];
    let len = be_u32(s, 1);
    if c == COMPRESSION_NONE {
        if 5 + len > s.len() {
            Err(StoreError::InvalidData)
        } else {
            Ok(ContainerView { compression: c, data: s.subrange(5, 5 + len), version: trailing_version(s, 5 + len) })
        }
    } else if 9 + len > s.len() {
        Err(StoreError::InvalidData)
    } else if c != COMPRESSION_BZIP2 && c != COMPRESSION_GZIP {
        Err(StoreError::InvalidData)
    } else {
        let stored = s.subrange(9, 9 + len);
        let out = if c == COMPRESSION_BZIP2 { bzip2_decoded(bzip2_magic() + stored) } else { gzip_decoded(stored) };
        match out {
            None => Err(StoreError::CompressionFailure),
            Some(x) => if x.len() != be_u32(s, 5) {
                Err(StoreError::InvalidData)
            } else {
                Ok(ContainerView { compression: c, data: x, version: trailing_version(s, 9 + len) })
            },
        }
    }
}

/// What decoding `s` with `key` yields.
pub open spec fn container_of(s: Seq<u8>, key: Seq<i32>) -> Result<ContainerView, StoreError> {
    if s.len() < 5 {
        Err(StoreError::InvalidData)
    } else {
        match deciphered(s, key) {
            None => Err(StoreError::InvalidData),
            Some(d) => parse_container(d),
        }
    }
}

pub open spec fn view_result(r: Result<Container, StoreError>) -> Result<ContainerView, StoreError> {
    match r {
        Ok(c) => Ok(c@),
        Err(e) => Err(e),
    }
}

/// The wire form of a container with code `c`, payload length `payload_len`,
/// stored bytes `body` and version `version`.
pub open spec fn container_bytes(c: u8, payload_len: int, body: Seq<u8>, version: i16) -> Seq<u8> {
    seq![c] + u32_bytes(body.len() as int) + (if c != COMPRESSION_NONE {
        u32_bytes(payload_len)
    } else {
        Seq::empty()
    }) + body + (if version != -1i16 {
        u16_bytes(i16_bits(version))
    } else {
        Seq::empty()
    })
}

/// The stored bytes for `data` under code `c`.
pub open spec fn stored_body(c: u8, data: Seq<u8>) -> Seq<u8> {
    if c == COMPRESSION_BZIP2 {
        bzip2_encoded(data).skip(4)
    } else if c == COMPRESSION_GZIP {
        gzip_encoded(data)
    } else {
        data
    }
}

/// A container's wire form, enciphered with `key` unless the key is null.
pub open spec fn sealed(s: Seq<u8>, key: Seq<i32>) -> Seq<u8> {
    if key_is_null(key) {
        s
    } else {
        encipher_range(s, 5, ((cipher_end(s) - 5) / 8) as nat, key)
    }
}

fn is_null_key(key: &[i32; 4]) -> (r: bool)
    ensures
        r == key_is_null(key@),
{
    key[0] == 0 && key[1] == 0 && key[2] == 0 && key[3] == 0
}

fn decode_version(s: &[u8], at: usize) -> (r: i16)
    requires
        at <= s@.len(),
    ensures
        r == trailing_version(s@, at as int),
{
    if s.len() - at >= 2 {
        read_i16(s, at)
    } else {
        -1i16
    }
}

fn parse(s: &[u8]) -> (r: Result<Container, StoreError>)
    requires
        s@.len() >= 5,
    ensures
        view_result(r) == parse_container(s@),
{
    let n = s.len();
    let c = s[0];
    let len = read_u32(s, 1) as usize;
    if c == COMPRESSION_NONE {
        if len > n - 5 {
            return Err(StoreError::InvalidData);
        }
        let mut data: Vec<u8> = Vec::new();
        push_range(&mut data, s, 5, 5 + len);
        assert(data@ =~= s@.subrange(5, 5 + len));
        let version = decode_version(s, 5 + len);
        return Ok(Container { type_id: c, data, version });
    }
    if n < 9 || len > n - 9 {
        return Err(StoreError::InvalidData);
    }
    if c != COMPRESSION_BZIP2 && c != COMPRESSION_GZIP {
        return Err(StoreError::InvalidData);
    }
    let uncompressed_length = read_u32(s, 5);
    let stored = slice_subrange(s, 9, 9 + len);
    let out = if c == COMPRESSION_BZIP2 {
        bunzip2(stored)
    } else {
        gunzip(stored)
    };
    let data = match out {
        Ok(x) => x,
        Err(e) => {
            return Err(e);
        },
    };
    if data.len() != uncompressed_length as usize {
        return Err(StoreError::InvalidData);
    }
    let version = decode_version(s, 9 + len);
    Ok(Container { type_id: c, data, version })
}

impl Container {
    /// A container of the given code around `data`, with no version.
    pub fn new(type_id: u8, data: Vec<u8>) -> (r: Container)
        ensures
            r@ == (ContainerView { compression: type_id, data: data@, version: -1i16 }),
    {
        Container { type_id, data, version: -1 }
    }

    /// Decodes a container that is not enciphered.
    pub fn decode(buffer: &[u8]) -> (r: Result<Container, StoreError>)
        ensures
            view_result(r) == container_of(buffer@, seq![0i32, 0, 0, 0]),
    {
        Container::decode_with_key(buffer, &[0, 0, 0, 0])
    }

    /// Decodes a container, first deciphering it when `key` is not null.
    pub fn decode_with_key(buffer: &[u8], key: &[i32; 4]) -> (r: Result<Container, StoreError>)
        ensures
            view_result(r) == container_of(buffer@, key@),
    {
        let n = buffer.len();
        if n < 5 {
            return Err(StoreError::InvalidData);
        }
        let c = buffer[0];
        let len = read_u32(buffer, 1) as usize;
        let mut clear: Vec<u8> = Vec::new();
        push_range(&mut clear, buffer, 0, n);
        assert(clear@ =~= buffer@);
        if !is_null_key(key) {
            let extra: usize = if c == COMPRESSION_NONE { 5 } else { 9 };
            if n < extra || len > n - extra {
                return Err(StoreError::InvalidData);
            }
            decipher_xtea(&mut clear, DATA_OFFSET, len + extra, key);
        }
        parse(clear.as_slice())
    }

    /// The wire form. The BZIP2 form leaves out the stream's four-byte magic.
    pub fn encode(self) -> (r: Result<Vec<u8>, StoreError>)
        requires
            self@.data.len() <= u32::MAX,
        ensures
            self@.compression > 2 ==> r == Err::<Vec<u8>, StoreError>(StoreError::InvalidData),
            r is Ok <==> self@.compression <= 2 && stored_body(self@.compression, self@.data).len() <= u32::MAX,
            r is Err ==> r->Err_0 == StoreError::InvalidData,
            r is Ok ==> r->Ok_0@ == container_bytes(
                self@.compression,
                self@.data.len() as int,
                stored_body(self@.compression, self@.data),
                self@.version,
            ),
    {
        let c = self.type_id;
        let remaining = self.data.len();
        let body = if c == COMPRESSION_NONE {
            self.data
        } else if c == COMPRESSION_BZIP2 {
            match bzip2(self.data.as_slice()) {
                Ok(b) => b,
                Err(e) => {
                    return Err(e);
                },
            }
        } else if c == COMPRESSION_GZIP {
            match gzip(self.data.as_slice()) {
                Ok(b) => b,
                Err(e) => {
                    return Err(e);
                },
            }
        } else {
            return Err(StoreError::InvalidData);
        };
        if body.len() > u32::MAX as usize {
            return Err(StoreError::InvalidData);
        }
        let mut buf: Vec<u8> = Vec::new();
        buf.push(c);
        push_u32(&mut buf, body.len() as u32);
        if c != COMPRESSION_NONE {
            push_u32(&mut buf, remaining as u32);
        }
        push_range(&mut buf, body.as_slice(), 0, body.len());
        if self.version != -1 {
            let bits: u16 = if self.version < 0 {
                (self.version as i32 + 0x10000) as u16
            } else {
                self.version as u16
            };
            push_u16(&mut buf, bits);
        }
        assert(body@.subrange(0, body@.len() as int) =~= body@);
        assert(buf@ =~= container_bytes(c, remaining as int, body@, self.version));
        Ok(buf)
    }

    pub fn type_id(&self) -> (r: u8)
        ensures
            r == self@.compression,
    {
        self.type_id
    }

    pub fn set_type_id(&mut self, type_id: u8)
        ensures
            final(self)@ == (ContainerView { compression: type_id, ..old(self)@ }),
    {
        self.type_id = type_id;
    }

    pub fn data(&self) -> (r: &Vec<u8>)
        ensures
            r@ == self@.data,
    {
        &self.data
    }

    pub fn data_mut(&mut self) -> (r: &mut Vec<u8>)
        ensures
            r@ == old(self)@.data,
            final(self)@ == (ContainerView { data: final(r)@, ..old(self)@ }),
    {
        &mut self.data
    }

    pub fn version(&self) -> (r: i16)
        ensures
            r == self@.version,
    {
        self.version
    }

    pub fn set_version(&mut self, version: i16)
        ensures
            final(self)@ == (ContainerView { version, ..old(self)@ }),
    {
        self.version = version;
    }
}

proof fn lemma_eighths(l: int)
    requires
        0 <= l,
    ensures
        0 <= 8 * (l / 8) <= l,
{
    assert(0 <= 8 * (l / 8) <= l) by (nonlinear_arith)
        requires
            0 <= l,
    ;
}

/// The two's complement bits of `v`, as a number.
pub open spec fn i16_bits(v: i16) -> int {
    if v < 0 { v + 0x10000 } else { v as int }
}

/// An uncompressed container decodes, with the key it was sealed with, to
/// the payload and version it was encoded from.
pub proof fn lemma_container_round_trip(data: Seq<u8>, version: i16, key: Seq<i32>)
    requires
        data.len() <= u32::MAX,
        key.len() == 4,
    ensures
        ({
            let s = container_bytes(COMPRESSION_NONE, data.len() as int, data, version);
            container_of(sealed(s, key), key) == Ok::<ContainerView, StoreError>(
                ContainerView { compression: COMPRESSION_NONE, data, version },
            )
        }),
{
    let l = data.len() as int;
    let s = container_bytes(COMPRESSION_NONE, l, data, version);
    let tail = if version != -1i16 { u16_bytes(i16_bits(version)) } else { Seq::<u8>::empty() };
    assert(s =~= seq![0u8] + u32_bytes(l) + data + tail);
    assert(s.len() == 5 + l + tail.len());
    assert(s.subrange(1, 5) =~= u32_bytes(l));
    lemma_u32_round_trip(l);
    assert(be_u32(s, 1) == be_u32(u32_bytes(l), 0));
    assert(cipher_end(s) == 5 + l);
    assert(s.subrange(5, 5 + l) =~= data);
    if version != -1i16 {
        assert(s.subrange(5 + l, 7 + l) =~= u16_bytes(i16_bits(version)));
        lemma_u16_round_trip(i16_bits(version));
        assert(crate::be::be_u16(s, 5 + l) == crate::be::be_u16(u16_bytes(i16_bits(version)), 0));
    }
    assert(parse_container(s) == Ok::<ContainerView, StoreError>(ContainerView { compression: COMPRESSION_NONE, data, version }));
    if !key_is_null(key) {
        lemma_eighths(l);
        let e = encipher_range(s, 5, (l / 8) as nat, key);
        assert(e.subrange(0, 5) =~= s.subrange(0, 5));
        assert(be_u32(e, 1) == be_u32(s, 1));
        assert(cipher_end(e) == cipher_end(s));
        lemma_xtea_inverse(s, 5, (l / 8) as nat, key);
    }
}

} // verus!
