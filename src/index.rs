use vstd::prelude::*;
use crate::be::{be_u24, read_u24};
use crate::error::StoreError;

verus! {

/// Bytes in an index entry.
pub const INDEX_SIZE: usize = 6;

/// An index entry: an archive's length and the first sector of its chain.
#[derive(Debug)]
pub struct Index {
    size: u32,
    sector: u32,
}

impl Index {
    pub closed spec fn spec_size(&self) -> u32 {
        self.size
    }

    pub closed spec fn spec_sector(&self) -> u32 {
        self.sector
    }

    /// Decodes an entry of exactly six bytes.
    pub fn decode(buf: &[u8]) -> (r: Result<Index, StoreError>)
        ensures
            r is Ok <==> buf@.len() == 6,
            buf@.len() != 6 <==> r == Err::<Index, StoreError>(StoreError::InvalidData),
            r is Ok ==> r->Ok_0.spec_size() == be_u24(buf@, 0) && r->Ok_0.spec_sector() == be_u24(buf@, 3),
    {
        if buf.len() != INDEX_SIZE {
            return Err(StoreError::InvalidData);
        }
        Ok(Index { size: read_u24(buf, 0), sector: read_u24(buf, 3) })
    }

    pub fn size(&self) -> (r: u32)
        ensures
            r == self.spec_size(),
    {
        self.size
    }

    pub fn sector(&self) -> (r: u32)
        ensures
            r == self.spec_sector(),
    {
        self.sector
    }
}

} // verus!
