//! The store: index files that locate each archive's first sector, and a
//! data file of 520-byte sectors chained into archives.
use vstd::prelude::*;
use vstd::slice::slice_subrange;
use crate::be::{be_u16, be_u24, push_range};
use crate::error::{StoreError, bytes_result};
use crate::index::{Index, INDEX_SIZE};
use crate::sector::{Sector, SECTOR_SIZE, SECTOR_DATA_SIZE};

verus! {

/// The type id that names the meta index.
pub const META_TYPE: usize = 255;

/// The contents of a store's files: the data file, the type index files
/// `idx0`, `idx1`, ... in order, and the meta index `idx255`.
#[derive(Debug)]
pub struct FileStore {
    data: Vec<u8>,
    indices: Vec<Vec<u8>>,
    meta: Vec<u8>,
}

/// `p` in front of the bytes of `r`; an error stays as it is.
pub open spec fn prepend(p: Seq<u8>, r: Result<Seq<u8>, StoreError>) -> Result<Seq<u8>, StoreError> {
    match r {
        Ok(x) => Ok(p + x),
        Err(e) => Err(e),
    }
}

/// The `remaining` bytes of an archive read from the chain that starts at
/// `sector`, whose first sector must carry chunk number `chunk`.
pub open spec fn chain(data: Seq<u8>, sector: int, remaining: nat, chunk: int) -> Result<Seq<u8>, StoreError>
    decreases remaining,
{
    if remaining == 0 {
        Ok(Seq::empty())
    } else if sector * 520 + 520 > data.len() {
        Err(StoreError::NotFound)
    } else if be_u16(data, sector * 520 + 2) != chunk {
        Err(StoreError::InvalidData)
    } else if remaining > 512 {
        let next = be_u24(data, sector * 520 + 4);
        if next == 0 {
            Err(StoreError::InvalidData)
        } else {
            prepend(
                data.subrange(sector * 520 + 8, sector * 520 + 520),
                chain(data, next, (remaining - 512) as nat, chunk + 1),
            )
        }
    } else {
        Ok(data.subrange(sector * 520 + 8, sector * 520 + 8 + remaining))
    }
}

/// Archive `file` of a store with data file `data`, located through `index`.
pub open spec fn archive(data: Seq<u8>, index: Seq<u8>, file: int) -> Result<Seq<u8>, StoreError> {
    if file * 6 + 6 > index.len() {
        Err(StoreError::NotFound)
    } else {
        chain(data, be_u24(index, file * 6 + 3), be_u24(index, file * 6) as nat, 0)
    }
}

/// A chain that is read whole has exactly the length that was asked for.
pub proof fn lemma_chain_len(data: Seq<u8>, sector: int, remaining: nat, chunk: int)
    requires
        0 <= sector,
    ensures
        chain(data, sector, remaining, chunk) is Ok ==> chain(data, sector, remaining, chunk)->Ok_0.len() == remaining,
    decreases remaining,
{
    if remaining > 512 {
        lemma_chain_len(data, be_u24(data, sector * 520 + 4), (remaining - 512) as nat, chunk + 1);
    }
}

impl FileStore {
    pub closed spec fn spec_data(&self) -> Seq<u8> {
        self.data@
    }

    pub closed spec fn spec_type_count(&self) -> nat {
        self.indices@.len()
    }

    /// The index file of type `t`: the meta index for 255.
    pub closed spec fn spec_index(&self, t: int) -> Seq<u8> {
        if t == 255 {
            self.meta@
        } else {
            self.indices@[t]@
        }
    }

    pub open spec fn has_type(&self, t: int) -> bool {
        t == 255 || 0 <= t < self.spec_type_count()
    }

    /// A store over the contents of its files. At least one type index is
    /// needed, and at most 255: type 255 is the meta index.
    pub fn new(data: Vec<u8>, indices: Vec<Vec<u8>>, meta: Vec<u8>) -> (r: Result<FileStore, StoreError>)
        requires
            indices@.len() <= 255,
        ensures
            indices@.len() == 0 <==> r == Err::<FileStore, StoreError>(StoreError::NotFound),
            r is Ok ==> {
                &&& r->Ok_0.spec_data() == data@
                &&& r->Ok_0.spec_type_count() == indices@.len()
                &&& r->Ok_0.spec_index(255) == meta@
                &&& forall|t: int| 0 <= t < indices@.len() ==> r->Ok_0.spec_index(t) == indices@[t]@
            },
    {
        if indices.len() == 0 {
            return Err(StoreError::NotFound);
        }
        Ok(FileStore { data, indices, meta })
    }

    /// The number of type indices.
    pub fn get_type_count(&self) -> (r: usize)
        ensures
            r == self.spec_type_count(),
    {
        self.indices.len()
    }

    /// The number of entries in the index of type `t`.
    pub fn get_file_count(&self, t: usize) -> (r: Result<usize, StoreError>)
        ensures
            !self.has_type(t as int) <==> r == Err::<usize, StoreError>(StoreError::NotFound),
            r is Ok <==> self.has_type(t as int),
            r is Ok ==> r->Ok_0 == self.spec_index(t as int).len() / 6,
    {
        if t >= self.indices.len() && t != META_TYPE {
            return Err(StoreError::NotFound);
        }
        let index = if t == META_TYPE {
            &self.meta
        } else {
            &self.indices[t]
        };
        Ok(index.len() / INDEX_SIZE)
    }

    /// Reads archive `file` of type `t` by walking its sector chain.
    pub fn read(&self, t: usize, file: usize) -> (r: Result<Vec<u8>, StoreError>)
        ensures
            !self.has_type(t as int) ==> r == Err::<Vec<u8>, StoreError>(StoreError::NotFound),
            self.has_type(t as int) ==> bytes_result(r) == archive(self.spec_data(), self.spec_index(t as int), file as int),
            r is Ok ==> r->Ok_0@.len() == be_u24(self.spec_index(t as int), file * 6),
    {
        if t >= self.indices.len() && t != META_TYPE {
            return Err(StoreError::NotFound);
        }
        let index = if t == META_TYPE {
            &self.meta
        } else {
            &self.indices[t]
        };
        if file > index.len() / INDEX_SIZE || index.len() - file * INDEX_SIZE < INDEX_SIZE {
            return Err(StoreError::NotFound);
        }
        let entry = Index::decode(slice_subrange(index.as_slice(), file * INDEX_SIZE, file * INDEX_SIZE + INDEX_SIZE));
        let entry = match entry {
            Ok(e) => e,
            Err(e) => {
                return Err(e);
            },
        };
        let size = entry.size();
        let first = entry.sector();
        assert(size == be_u24(self.spec_index(t as int), file * 6));
        assert(first == be_u24(self.spec_index(t as int), file * 6 + 3));
        let data = self.data.as_slice();
        let ghost whole = chain(data@, first as int, size as nat, 0);
        proof {
            lemma_chain_len(data@, first as int, size as nat, 0);
        }
        let mut out: Vec<u8> = Vec::new();
        let mut sector: u32 = first;
        let mut remaining: u32 = size;
        let mut chunk: u32 = 0;
        while remaining > 0
            invariant
                data@ == self.spec_data(),
                self.has_type(t as int),
                whole == chain(data@, first as int, size as nat, 0),
                whole == archive(self.spec_data(), self.spec_index(t as int), file as int),
                size < 0x1000000,
                sector < 0x1000000,
                remaining > 0 ==> chunk * 512 + remaining == size,
                chunk * 512 <= size,
                prepend(out@, chain(data@, sector as int, remaining as nat, chunk as int)) == whole,
            decreases remaining,
        {
            let off = sector as u64 * 520;
            if off + 520 > data.len() as u64 {
                return Err(StoreError::NotFound);
            }
            let off = off as usize;
            let sec = match Sector::decode(slice_subrange(data, off, off + SECTOR_SIZE)) {
                Ok(s) => s,
                Err(e) => {
                    return Err(e);
                },
            };
            if sec.chunk() as u32 != chunk {
                return Err(StoreError::InvalidData);
            }
            let payload = sec.data();
            if remaining > SECTOR_DATA_SIZE as u32 {
                let next = sec.next_sector();
                if next == 0 {
                    return Err(StoreError::InvalidData);
                }
                let ghost before = out@;
                push_range(&mut out, payload, 0, SECTOR_DATA_SIZE);
                proof {
                    assert(payload@.subrange(0, 512) =~= data@.subrange(off + 8, off + 520));
                    let rest = chain(data@, next as int, (remaining - 512) as nat, chunk + 1);
                    match rest {
                        Ok(x) => {
                            assert(before + (payload@.subrange(0, 512) + x) =~= out@ + x);
                        },
                        Err(e) => {},
                    }
                }
                remaining = remaining - SECTOR_DATA_SIZE as u32;
                chunk = chunk + 1;
                sector = next;
            } else {
                push_range(&mut out, payload, 0, remaining as usize);
                assert(payload@.subrange(0, remaining as int) =~= data@.subrange(off + 8, off + 8 + remaining));
                remaining = 0;
                assert(out@ + Seq::<u8>::empty() =~= out@);
            }
        }
        assert(out@ + Seq::<u8>::empty() =~= out@);
        Ok(out)
    }
}

} // verus!
