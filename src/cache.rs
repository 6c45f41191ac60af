//! A store together with the checksum table that summarises it.
use vstd::prelude::*;
use crate::checksum_table::{ChecksumTable, Entry, EntryView};
use crate::codec::{crc32_of, whirlpool_of, get_crc_checksum, hash_whirlpool};
use crate::container::{Container, container_of};
use crate::error::StoreError;
use crate::filestore::{FileStore, archive, META_TYPE};
use crate::reference_table::{ReferenceTable, table_well_formed, table_of, WHIRLPOOL_SIZE};
use crate::be::zeros;

verus! {

/// The summary of a group with no reference table.
pub open spec fn empty_entry() -> EntryView {
    EntryView { crc: 0, version: 0, whirlpool: Seq::new(64, |k: int| 0u8) }
}

/// The summary of a group from the raw bytes of its reference table's
/// container: an empty one gives the empty summary.
pub open spec fn summary_of(b: Seq<u8>) -> Result<EntryView, StoreError> {
    if b.len() == 0 {
        Ok(empty_entry())
    } else {
        match container_of(b, seq![0i32, 0, 0, 0]) {
            Err(e) => Err(e),
            Ok(c) => if !table_well_formed(c.data) {
                Err(StoreError::InvalidData)
            } else {
                Ok(
                    EntryView {
                        crc: crc32_of(b),
                        version: match table_of(c.data).version {
                            Some(v) => v,
                            None => 0,
                        },
                        whirlpool: whirlpool_of(b),
                    },
                )
            },
        }
    }
}

/// The summary of payload type `t` of a store with data file `data` and
/// meta index `meta`: a type that the meta index does not reach gets the
/// empty summary; a read that fails otherwise is an error.
#[verifier::opaque]
pub open spec fn type_summary(data: Seq<u8>, meta: Seq<u8>, t: int) -> Result<EntryView, StoreError> {
    if t * 6 + 6 > meta.len() {
        Ok(empty_entry())
    } else {
        match archive(data, meta, t) {
            Err(e) => Err(e),
            Ok(b) => summary_of(b),
        }
    }
}

/// A store and the operations that summarise it.
#[derive(Debug)]
pub struct Cache {
    store: FileStore,
}

/// Summarises one group from the raw bytes of its reference table's container.
pub fn summarise(buf: &[u8]) -> (r: Result<Entry, StoreError>)
    ensures
        match r {
            Ok(e) => summary_of(buf@) == Ok::<EntryView, StoreError>(e@),
            Err(e) => summary_of(buf@) == Err::<EntryView, StoreError>(e),
        },
{
    if buf.len() == 0 {
        return Ok(Entry::new(0, 0, zeros(WHIRLPOOL_SIZE)));
    }
    let container = match Container::decode(buf) {
        Ok(c) => c,
        Err(e) => {
            return Err(e);
        },
    };
    let table = match ReferenceTable::decode(container.data().as_slice()) {
        Ok(t) => t,
        Err(e) => {
            return Err(e);
        },
    };
    let crc = get_crc_checksum(buf);
    let version = match table.version() {
        Some(v) => v,
        None => 0,
    };
    let whirlpool = hash_whirlpool(buf);
    Ok(Entry::new(crc, version, whirlpool))
}

impl Cache {
    /// Summarises payload type `t`; `reachable` is the meta index's entry count.
    fn summarise_type(&self, t: usize, reachable: usize) -> (r: Result<Entry, StoreError>)
        requires
            reachable == self.spec_store().spec_index(255).len() / 6,
        ensures
            match r {
                Ok(e) => type_summary(self.spec_store().spec_data(), self.spec_store().spec_index(255), t as int)
                    == Ok::<EntryView, StoreError>(e@),
                Err(e) => type_summary(self.spec_store().spec_data(), self.spec_store().spec_index(255), t as int)
                    == Err::<EntryView, StoreError>(e),
            },
    {
        reveal(type_summary);
        if t >= reachable {
            return Ok(Entry::new(0, 0, zeros(WHIRLPOOL_SIZE)));
        }
        let raw = match self.store.read(META_TYPE, t) {
            Ok(b) => b,
            Err(e) => {
                return Err(e);
            },
        };
        summarise(raw.as_slice())
    }

    pub fn new(store: FileStore) -> (r: Cache)
        ensures
            r.spec_store() == store,
    {
        Cache { store }
    }

    pub closed spec fn spec_store(&self) -> FileStore {
        self.store
    }

    /// Summarises every payload type from the reference tables that the
    /// meta index holds, in type order.
    pub fn create_checksum_table(&self) -> (r: Result<ChecksumTable, StoreError>)
        ensures
            r is Ok <==> forall|t: int|
                0 <= t < self.spec_store().spec_type_count() ==> (#[trigger] type_summary(
                    self.spec_store().spec_data(),
                    self.spec_store().spec_index(255),
                    t,
                )) is Ok,
            r is Ok ==> r->Ok_0@.len() == self.spec_store().spec_type_count(),
            r is Ok ==> forall|t: int|
                0 <= t < self.spec_store().spec_type_count() ==> type_summary(
                    self.spec_store().spec_data(),
                    self.spec_store().spec_index(255),
                    t,
                ) == Ok::<EntryView, StoreError>(#[trigger] r->Ok_0@[t]),
    {
        let size = self.store.get_type_count();
        let reachable = match self.store.get_file_count(META_TYPE) {
            Ok(n) => n,
            Err(e) => {
                return Err(e);
            },
        };
        let mut table = ChecksumTable::new(size);
        let mut i: usize = 0;
        while i < size
            invariant
                size == self.spec_store().spec_type_count(),
                reachable == self.spec_store().spec_index(255).len() / 6,
                i <= size,
                table@.len() == i,
                forall|t: int|
                    0 <= t < i ==> type_summary(self.spec_store().spec_data(), self.spec_store().spec_index(255), t)
                        == Ok::<EntryView, StoreError>(#[trigger] table@[t]),
            decreases size - i,
        {
            let entry = match self.summarise_type(i, reachable) {
                Ok(e) => e,
                Err(e) => {
                    assert(type_summary(self.spec_store().spec_data(), self.spec_store().spec_index(255), i as int) is Err);
                    return Err(e);
                },
            };
            table.push(entry);
            i += 1;
        }
        assert forall|t: int| 0 <= t < self.spec_store().spec_type_count() implies (#[trigger] type_summary(
            self.spec_store().spec_data(),
            self.spec_store().spec_index(255),
            t,
        )) is Ok by {
            assert(type_summary(self.spec_store().spec_data(), self.spec_store().spec_index(255), t) == Ok::<EntryView, StoreError>(table@[t]));
        }
        Ok(table)
    }

    pub fn store(&self) -> (r: &FileStore)
        ensures
            *r == self.spec_store(),
    {
        &self.store
    }

    pub fn store_mut(&mut self) -> (r: &mut FileStore)
        ensures
            *r == old(self).spec_store(),
            final(self).spec_store() == *final(r),
    {
        &mut self.store
    }

    pub fn get_type_count(&self) -> (r: usize)
        ensures
            r == self.spec_store().spec_type_count(),
    {
        self.store.get_type_count()
    }

    pub fn get_file_count(&self, file_type: usize) -> (r: Result<usize, StoreError>)
        ensures
            !self.spec_store().has_type(file_type as int) <==> r == Err::<usize, StoreError>(StoreError::NotFound),
            r is Ok <==> self.spec_store().has_type(file_type as int),
            r is Ok ==> r->Ok_0 == self.spec_store().spec_index(file_type as int).len() / 6,
    {
        self.store.get_file_count(file_type)
    }
}

/// Two stores with the same data file and meta index are summarised alike:
/// the CRC and the digest of each group depend on its raw bytes alone.
pub proof fn lemma_summary_stable(a: &FileStore, b: &FileStore, t: int)
    requires
        a.spec_data() == b.spec_data(),
        a.spec_index(255) == b.spec_index(255),
    ensures
        type_summary(a.spec_data(), a.spec_index(255), t) == type_summary(b.spec_data(), b.spec_index(255), t),
{
}

} // verus!
