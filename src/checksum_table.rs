//! The summary of every archive group: a CRC, a version and a Whirlpool
//! digest per payload type, and the response form served to clients.
use vstd::prelude::*;
use vstd::arithmetic::power::pow;
use crate::be::{u32_bytes, push_u32, push_range};
use crate::codec::{be_value, whirlpool_of, hash_whirlpool, encrypt_rsa, minimal_be, lemma_minimal_be_unique};

verus! {

/// The summary of one archive group.
#[derive(Debug, Clone)]
pub struct Entry {
    crc: u32,
    version: i32,
    whirlpool: Vec<u8>,
}

pub ghost struct EntryView {
    pub crc: u32,
    pub version: i32,
    pub whirlpool: Seq<u8>,
}

impl View for Entry {
    type V = EntryView;

    closed spec fn view(&self) -> EntryView {
        EntryView { crc: self.crc, version: self.version, whirlpool: self.whirlpool@ }
    }
}

/// The entries, indexed by payload type.
#[derive(Debug)]
pub struct ChecksumTable {
    entries: Vec<Entry>,
}

impl View for ChecksumTable {
    type V = Seq<EntryView>;

    closed spec fn view(&self) -> Seq<EntryView> {
        self.entries@.map_values(|e: Entry| e@)
    }
}

/// The two's complement bits of `v`, as a number.
pub open spec fn i32_bits(v: i32) -> int {
    if v < 0 { v + 0x1_0000_0000 } else { v as int }
}

pub open spec fn entry_bytes(e: EntryView, with_whirlpool: bool) -> Seq<u8> {
    u32_bytes(e.crc as int) + u32_bytes(i32_bits(e.version)) + if with_whirlpool {
        e.whirlpool
    } else {
        Seq::empty()
    }
}

pub open spec fn entries_bytes(es: Seq<EntryView>, with_whirlpool: bool) -> Seq<u8>
    decreases es.len(),
{
    if es.len() == 0 {
        Seq::empty()
    } else {
        entries_bytes(es.drop_last(), with_whirlpool) + entry_bytes(es.last(), with_whirlpool)
    }
}

/// The entries in response form, before any trailer: with the Whirlpool
/// digests, a count byte comes first.
pub open spec fn table_body(es: Seq<EntryView>, with_whirlpool: bool) -> Seq<u8> {
    (if with_whirlpool { seq![(es.len() % 256) as u8] } else { Seq::empty() }) + entries_bytes(es, with_whirlpool)
}

/// The unsigned trailer that follows the body: a zero byte and the body's digest.
pub open spec fn trailer_of(body: Seq<u8>) -> Seq<u8> {
    seq![0u8] + whirlpool_of(body)
}

fn i32_bits_exec(v: i32) -> (r: u32)
    ensures
        r == i32_bits(v),
{
    if v < 0 {
        (v as i64 + 0x1_0000_0000) as u32
    } else {
        v as u32
    }
}

impl ChecksumTable {
    /// An empty table.
    pub fn new(size: usize) -> (r: ChecksumTable)
        ensures
            r@ == Seq::<EntryView>::empty(),
    {
        let entries: Vec<Entry> = Vec::with_capacity(size);
        let r = ChecksumTable { entries };
        assert(r@ =~= Seq::<EntryView>::empty());
        r
    }

    /// The plain response form: each entry's CRC and version.
    pub fn encode(&self) -> (r: Vec<u8>)
        ensures
            r@ == table_body(self@, false),
    {
        self.encode_impl(false, None, None)
    }

    /// The response form. With `whirlpool`, a count byte leads, each entry
    /// carries its digest, and a trailer follows: a zero byte and the digest
    /// of all that came before, raised to `private_key` modulo `modulus`
    /// when both are given (big-endian numbers).
    pub fn encode_impl(&self, whirlpool: bool, modulus: Option<Vec<u8>>, private_key: Option<Vec<u8>>) -> (r: Vec<u8>)
        requires
            modulus is Some && private_key is Some ==> be_value(modulus->Some_0@) > 0,
        ensures
            !whirlpool ==> r@ == table_body(self@, false),
            whirlpool && (modulus is None || private_key is None) ==> r@ == table_body(self@, true) + trailer_of(
                table_body(self@, true),
            ),
            whirlpool && modulus is Some && private_key is Some ==> r@ == table_body(self@, true) + minimal_be(
                (pow(be_value(trailer_of(table_body(self@, true))) as int, be_value(private_key->Some_0@)) % (be_value(
                    modulus->Some_0@,
                ) as int)) as nat,
            ),
    {
        let mut buf: Vec<u8> = Vec::new();
        if whirlpool {
            buf.push((self.entries.len() % 256) as u8);
        }
        let ghost head = buf@;
        let mut i: usize = 0;
        while i < self.entries.len()
            invariant
                i <= self.entries@.len(),
                buf@ == head + entries_bytes(self@.subrange(0, i as int), whirlpool),
            decreases self.entries@.len() - i,
        {
            let entry = &self.entries[i];
            let ghost before = buf@;
            push_u32(&mut buf, entry.crc);
            push_u32(&mut buf, i32_bits_exec(entry.version));
            if whirlpool {
                push_range(&mut buf, entry.whirlpool.as_slice(), 0, entry.whirlpool.len());
                assert(entry.whirlpool@.subrange(0, entry.whirlpool@.len() as int) =~= entry.whirlpool@);
            }
            assert(self@.subrange(0, i + 1).drop_last() =~= self@.subrange(0, i as int));
            assert(buf@ =~= head + entries_bytes(self@.subrange(0, i + 1), whirlpool));
            i += 1;
        }
        assert(self@.subrange(0, self@.len() as int) =~= self@);
        assert(buf@ == table_body(self@, whirlpool));
        if whirlpool {
            let digest = hash_whirlpool(buf.as_slice());
            let mut trailer: Vec<u8> = Vec::new();
            trailer.push(0);
            push_range(&mut trailer, digest.as_slice(), 0, digest.len());
            assert(trailer@ =~= trailer_of(buf@));
            let ghost body = buf@;
            let signed = match (modulus, private_key) {
                (Some(m), Some(k)) => {
                    let s = encrypt_rsa(trailer.as_slice(), m.as_slice(), k.as_slice());
                    proof {
                        lemma_minimal_be_unique(s@);
                    }
                    s
                },
                _ => trailer,
            };
            push_range(&mut buf, signed.as_slice(), 0, signed.len());
            assert(buf@ =~= body + signed@);
        }
        buf
    }

    pub fn get_entry(&self, index: usize) -> (r: Option<&Entry>)
        ensures
            index < self@.len() ==> r is Some && r->Some_0@ == self@[index as int],
            index >= self@.len() ==> r is None,
    {
        if index < self.entries.len() {
            Some(&self.entries[index])
        } else {
            None
        }
    }

    pub fn entries(&self) -> (r: &Vec<Entry>)
        ensures
            r@.map_values(|e: Entry| e@) == self@,
    {
        &self.entries
    }

    pub fn entries_mut(&mut self) -> (r: &mut Vec<Entry>)
        ensures
            r@.map_values(|e: Entry| e@) == old(self)@,
            final(self)@ == final(r)@.map_values(|e: Entry| e@),
    {
        &mut self.entries
    }

    /// Appends an entry.
    pub fn push(&mut self, entry: Entry)
        ensures
            final(self)@ == old(self)@.push(entry@),
    {
        self.entries.push(entry);
        assert(self@ =~= old(self)@.push(entry@));
    }
}

impl Entry {
    pub fn new(crc: u32, version: i32, whirlpool: Vec<u8>) -> (r: Entry)
        requires
            whirlpool@.len() == 64,
        ensures
            r@ == (EntryView { crc, version, whirlpool: whirlpool@ }),
    {
        Entry { crc, version, whirlpool }
    }

    pub fn crc(&self) -> (r: u32)
        ensures
            r == self@.crc,
    {
        self.crc
    }

    pub fn set_crc(&mut self, crc: u32)
        ensures
            final(self)@ == (EntryView { crc, ..old(self)@ }),
    {
        self.crc = crc;
    }

    pub fn version(&self) -> (r: i32)
        ensures
            r == self@.version,
    {
        self.version
    }

    pub fn set_version(&mut self, version: i32)
        ensures
            final(self)@ == (EntryView { version, ..old(self)@ }),
    {
        self.version = version;
    }

    pub fn whirlpool(&self) -> (r: &[u8])
        ensures
            r@ == self@.whirlpool,
    {
        self.whirlpool.as_slice()
    }

    pub fn set_whirlpool(&mut self, whirlpool: Vec<u8>)
        requires
            whirlpool@.len() == 64,
        ensures
            final(self)@ == (EntryView { whirlpool: whirlpool@, ..old(self)@ }),
    {
        self.whirlpool = whirlpool;
    }
}

} // verus!
