use vstd::prelude::*;
use crate::be::{be_u16, be_u24, read_u16, read_u24, push_range};
use crate::error::StoreError;

verus! {

/// Bytes in a sector's header.
pub const SECTOR_HEADER_SIZE: usize = 8;
/// Payload bytes in a sector.
pub const SECTOR_DATA_SIZE: usize = 512;
/// Bytes in a whole sector.
pub const SECTOR_SIZE: usize = 520;

/// One fixed-size block of the data file: a header that links it into its
/// archive's chain, and 512 bytes of the archive.
#[derive(Debug)]
pub struct Sector {
    type_id: u8,
    id: u16,
    chunk: u16,
    next_sector: u32,
    data: Vec<u8>,
}

impl Sector {
    pub closed spec fn spec_type_id(&self) -> u8 {
        self.type_id
    }

    pub closed spec fn spec_id(&self) -> u16 {
        self.id
    }

    pub closed spec fn spec_chunk(&self) -> u16 {
        self.chunk
    }

    pub closed spec fn spec_next_sector(&self) -> u32 {
        self.next_sector
    }

    pub closed spec fn spec_data(&self) -> Seq<u8> {
        self.data@
    }

    /// What decoding the 520 bytes `s` yields: the header fields and the payload.
    pub open spec fn decoded_from(&self, s: Seq<u8>) -> bool {
        &&& self.spec_id() == be_u16(s, 0)
        &&& self.spec_chunk() == be_u16(s, 2)
        &&& self.spec_next_sector() == be_u24(s, 4)
        &&& self.spec_type_id() == s[7]
        &&& self.spec_data() == s.subrange(8, 520)
    }

    /// Decodes a sector; the buffer must be exactly one sector long.
    pub fn decode(buf: &[u8]) -> (r: Result<Sector, StoreError>)
        ensures
            r is Ok <==> buf@.len() == 520,
            buf@.len() != 520 <==> r == Err::<Sector, StoreError>(StoreError::InvalidData),
            r is Ok ==> r->Ok_0.decoded_from(buf@),
    {
        if buf.len() != SECTOR_SIZE {
            return Err(StoreError::InvalidData);
        }
        let id = read_u16(buf, 0);
        let chunk = read_u16(buf, 2);
        let next_sector = read_u24(buf, 4);
        let type_id = buf[7];
        let mut data: Vec<u8> = Vec::new();
        push_range(&mut data, buf, SECTOR_HEADER_SIZE, SECTOR_SIZE);
        Ok(Sector { type_id, id, chunk, next_sector, data })
    }

    pub fn type_id(&self) -> (r: u8)
        ensures
            r == self.spec_type_id(),
    {
        self.type_id
    }

    pub fn id(&self) -> (r: u16)
        ensures
            r == self.spec_id(),
    {
        self.id
    }

    pub fn chunk(&self) -> (r: u16)
        ensures
            r == self.spec_chunk(),
    {
        self.chunk
    }

    pub fn next_sector(&self) -> (r: u32)
        ensures
            r == self.spec_next_sector(),
    {
        self.next_sector
    }

    pub fn data(&self) -> (r: &[u8])
        ensures
            r@ == self.spec_data(),
    {
        self.data.as_slice()
    }
}

} // verus!
