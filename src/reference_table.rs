//! The descriptor of one archive group: per-archive checksums, versions and
//! the delta-coded ids of each archive's children.
use vstd::prelude::*;
use std::collections::HashSet;
use crate::be::{be_u16, be_i16, be_i32, read_u16, read_i16, read_i32, push_range, zeros};
use crate::error::StoreError;

verus! {

broadcast use vstd::std_specs::hash::group_hash_axioms;

/// Flag bit: entries and their children carry a name hash.
pub const FLAG_IDENTIFIERS: u8 = 0x01;
/// Flag bit: entries carry a Whirlpool digest.
pub const FLAG_WHIRLPOOL: u8 = 0x02;
/// Bytes in a Whirlpool digest.
pub const WHIRLPOOL_SIZE: usize = 64;

/// A child of an archive.
#[derive(Debug)]
pub struct ChildEntry {
    id: i32,
    identifier: Option<i32>,
}

pub ghost struct ChildView {
    pub id: i32,
    pub identifier: Option<i32>,
}

/// One archive of the group.
#[derive(Debug)]
pub struct Entry {
    id: i32,
    identifier: Option<i32>,
    crc: i32,
    whirlpool: Vec<u8>,
    version: i32,
    entries: Vec<ChildEntry>,
}

pub ghost struct EntryView {
    pub id: i32,
    pub identifier: Option<i32>,
    pub crc: i32,
    pub whirlpool: Seq<u8>,
    pub version: i32,
    pub children: Seq<ChildView>,
}

/// A decoded reference table. Its entries stand in the order in which their
/// ids were decoded.
#[derive(Debug)]
pub struct ReferenceTable {
    format: u8,
    version: Option<i32>,
    flags: u8,
    entries: Vec<Entry>,
}

pub ghost struct TableView {
    pub format: u8,
    pub version: Option<i32>,
    pub flags: u8,
    pub entries: Seq<EntryView>,
}

impl View for ChildEntry {
    type V = ChildView;

    closed spec fn view(&self) -> ChildView {
        ChildView { id: self.id, identifier: self.identifier }
    }
}

impl View for Entry {
    type V = EntryView;

    closed spec fn view(&self) -> EntryView {
        EntryView {
            id: self.id,
            identifier: self.identifier,
            crc: self.crc,
            whirlpool: self.whirlpool@,
            version: self.version,
            children: self.entries@.map_values(|c: ChildEntry| c@),
        }
    }
}

impl View for ReferenceTable {
    type V = TableView;

    closed spec fn view(&self) -> TableView {
        TableView {
            format: self.format,
            version: self.version,
            flags: self.flags,
            entries: self.entries@.map_values(|e: Entry| e@),
        }
    }
}

// Layout of an encoded table. Each column holds one value per id, in the
// order in which the ids were decoded.

pub open spec fn flags_pos(s: Seq<u8>) -> int {
    if s[0] >= 6 { 5 } else { 1 }
}

pub open spec fn table_flags(s: Seq<u8>) -> u8 {
    s[flags_pos(s)]
}

pub open spec fn has_identifiers(s: Seq<u8>) -> bool {
    table_flags(s) & FLAG_IDENTIFIERS != 0
}

pub open spec fn has_whirlpool(s: Seq<u8>) -> bool {
    table_flags(s) & FLAG_WHIRLPOOL != 0
}

pub open spec fn id_count(s: Seq<u8>) -> int {
    be_u16(s, flags_pos(s) + 1)
}

pub open spec fn deltas_pos(s: Seq<u8>) -> int {
    flags_pos(s) + 3
}

pub open spec fn identifiers_pos(s: Seq<u8>) -> int {
    deltas_pos(s) + 2 * id_count(s)
}

pub open spec fn crcs_pos(s: Seq<u8>) -> int {
    identifiers_pos(s) + if has_identifiers(s) { 4 * id_count(s) } else { 0 }
}

pub open spec fn whirlpools_pos(s: Seq<u8>) -> int {
    crcs_pos(s) + 4 * id_count(s)
}

pub open spec fn versions_pos(s: Seq<u8>) -> int {
    whirlpools_pos(s) + if has_whirlpool(s) { 64 * id_count(s) } else { 0 }
}

pub open spec fn counts_pos(s: Seq<u8>) -> int {
    versions_pos(s) + 4 * id_count(s)
}

pub open spec fn child_deltas_pos(s: Seq<u8>) -> int {
    counts_pos(s) + 2 * id_count(s)
}

pub open spec fn child_count(s: Seq<u8>, i: int) -> int {
    be_u16(s, counts_pos(s) + 2 * i)
}

/// How many children the entries before entry `i` have together.
pub open spec fn children_before(s: Seq<u8>, i: nat) -> int
    decreases i,
{
    if i == 0 {
        0
    } else {
        children_before(s, (i - 1) as nat) + child_count(s, i - 1)
    }
}

pub open spec fn child_identifiers_pos(s: Seq<u8>) -> int {
    child_deltas_pos(s) + 2 * children_before(s, id_count(s) as nat)
}

pub open spec fn table_end(s: Seq<u8>) -> int {
    child_identifiers_pos(s) + if has_identifiers(s) {
        4 * children_before(s, id_count(s) as nat)
    } else {
        0
    }
}

/// The running sum of the first `k` big-endian `i16` deltas at `start`.
pub open spec fn delta_sum(s: Seq<u8>, start: int, k: nat) -> int
    decreases k,
{
    if k == 0 {
        0
    } else {
        delta_sum(s, start, (k - 1) as nat) + be_i16(s, start + 2 * (k - 1))
    }
}

pub open spec fn entry_id(s: Seq<u8>, i: int) -> int {
    delta_sum(s, deltas_pos(s), (i + 1) as nat)
}

pub open spec fn child_id(s: Seq<u8>, i: int, j: int) -> int {
    delta_sum(s, child_deltas_pos(s) + 2 * children_before(s, i as nat), (j + 1) as nat)
}

pub open spec fn ids_distinct(s: Seq<u8>) -> bool {
    forall|a: int, b: int|
        0 <= a < id_count(s) && 0 <= b < id_count(s) && a != b ==> entry_id(s, a) != entry_id(s, b)
}

/// The bytes hold a whole table whose ids are distinct. Children ids may
/// repeat under an entry: a repeated one names the same child again.
pub open spec fn table_well_formed(s: Seq<u8>) -> bool {
    &&& s.len() >= 1
    &&& s.len() >= flags_pos(s) + 3
    &&& s.len() >= table_end(s)
    &&& ids_distinct(s)
}

pub open spec fn expected_child(s: Seq<u8>, i: int, j: int) -> ChildView {
    ChildView {
        id: child_id(s, i, j) as i32,
        identifier: if has_identifiers(s) {
            Some(be_i32(s, child_identifiers_pos(s) + 4 * (children_before(s, i as nat) + j)) as i32)
        } else {
            None
        },
    }
}

/// Where the child with id `id` stands in `v`, or -1.
pub open spec fn child_pos(v: Seq<ChildView>, id: i32) -> int
    decreases v.len(),
{
    if v.len() == 0 {
        -1
    } else if v.last().id == id {
        v.len() - 1
    } else {
        child_pos(v.drop_last(), id)
    }
}

/// The children of entry `i` once its first `k` child ids are read: an id
/// read again keeps its first place and takes the later identifier.
pub open spec fn children_upto(s: Seq<u8>, i: int, k: nat) -> Seq<ChildView>
    decreases k,
{
    if k == 0 {
        Seq::empty()
    } else {
        let prev = children_upto(s, i, (k - 1) as nat);
        let c = expected_child(s, i, k - 1);
        let p = child_pos(prev, c.id);
        if p >= 0 {
            prev.update(p, c)
        } else {
            prev.push(c)
        }
    }
}

pub open spec fn expected_entry(s: Seq<u8>, i: int) -> EntryView {
    let n = id_count(s);
    EntryView {
        id: entry_id(s, i) as i32,
        identifier: if has_identifiers(s) {
            Some(be_i32(s, identifiers_pos(s) + 4 * i) as i32)
        } else {
            None
        },
        crc: be_i32(s, crcs_pos(s) + 4 * i) as i32,
        whirlpool: if has_whirlpool(s) {
            s.subrange(whirlpools_pos(s) + 64 * i, whirlpools_pos(s) + 64 * i + 64)
        } else {
            Seq::new(64, |k: int| 0u8)
        },
        version: be_i32(s, versions_pos(s) + 4 * i) as i32,
        children: children_upto(s, i, child_count(s, i) as nat),
    }
}

/// What decoding a well-formed `s` yields.
pub open spec fn table_of(s: Seq<u8>) -> TableView {
    TableView {
        format: s[0],
        version: if s[0] >= 6 { Some(be_i32(s, 1) as i32) } else { None },
        flags: table_flags(s),
        entries: Seq::new(id_count(s) as nat, |i: int| expected_entry(s, i)),
    }
}

proof fn lemma_children_before_monotone(s: Seq<u8>, i: nat, j: nat)
    requires
        i <= j,
    ensures
        0 <= children_before(s, i) <= children_before(s, j),
    decreases j,
{
    if i < j {
        lemma_children_before_monotone(s, i, (j - 1) as nat);
    } else if i > 0 {
        lemma_children_before_monotone(s, (i - 1) as nat, (i - 1) as nat);
    }
}

proof fn lemma_delta_sum_bounds(s: Seq<u8>, start: int, k: nat)
    ensures
        -0x8000 * k <= delta_sum(s, start, k) <= 0x7fff * k,
    decreases k,
{
    if k > 0 {
        lemma_delta_sum_bounds(s, start, (k - 1) as nat);
    }
}

/// Reads `count` delta-coded ids at `start`: each id is the running sum of
/// the deltas up to and including its own.
fn read_deltas(s: &[u8], start: usize, count: usize) -> (r: Vec<i32>)
    requires
        start + 2 * count <= s@.len(),
        count <= 0xffff,
    ensures
        r@.len() == count,
        forall|j: int| 0 <= j < count ==> r@[j] == delta_sum(s@, start as int, (j + 1) as nat),
{
    let len = s.len();
    let mut r: Vec<i32> = Vec::new();
    let mut acc: i32 = 0;
    let mut j: usize = 0;
    while j < count
        invariant
            start + 2 * count <= s@.len(),
            len == s@.len(),
            count <= 0xffff,
            j <= count,
            r@.len() == j,
            acc == delta_sum(s@, start as int, j as nat),
            forall|k: int| 0 <= k < j ==> r@[k] == delta_sum(s@, start as int, (k + 1) as nat),
        decreases count - j,
    {
        proof {
            lemma_delta_sum_bounds(s@, start as int, (j + 1) as nat);
        }
        let d = read_i16(s, start + 2 * j);
        acc = acc + d as i32;
        r.push(acc);
        j += 1;
    }
    r
}

/// Where the child with id `id` stands in `v`, if it is there.
fn find_child(v: &Vec<ChildEntry>, id: i32) -> (r: Option<usize>)
    ensures
        match r {
            Some(p) => p < v@.len() && child_pos(v@.map_values(|c: ChildEntry| c@), id) == p,
            None => child_pos(v@.map_values(|c: ChildEntry| c@), id) == -1,
        },
{
    let ghost w = v@.map_values(|c: ChildEntry| c@);
    let mut k = v.len();
    assert(w.subrange(0, k as int) =~= w);
    while k > 0
        invariant
            k <= v@.len(),
            w == v@.map_values(|c: ChildEntry| c@),
            child_pos(w, id) == child_pos(w.subrange(0, k as int), id),
        decreases k,
    {
        assert(w.subrange(0, k as int).drop_last() =~= w.subrange(0, k - 1));
        assert(w.subrange(0, k as int).last() == v@[k - 1]@);
        if v[k - 1].id == id {
            return Some(k - 1);
        }
        k -= 1;
    }
    None
}

/// Whether no two elements of `v` are equal.
fn all_distinct(v: &Vec<i32>) -> (r: bool)
    ensures
        r <==> forall|a: int, b: int| 0 <= a < v@.len() && 0 <= b < v@.len() && a != b ==> v@[a] != v@[b],
{
    let mut seen: HashSet<i32> = HashSet::new();
    let mut i: usize = 0;
    while i < v.len()
        invariant
            i <= v@.len(),
            forall|x: i32| seen@.contains(x) <==> exists|k: int| 0 <= k < i && v@[k] == x,
            forall|a: int, b: int| 0 <= a < i && 0 <= b < i && a != b ==> v@[a] != v@[b],
        decreases v@.len() - i,
    {
        let x = v[i];
        if !seen.insert(x) {
            let ghost k = choose|k: int| 0 <= k < i && v@[k] == x;
            assert(v@[k] == v@[i as int]);
            return false;
        }
        assert forall|y: i32| seen@.contains(y) <==> exists|k: int| 0 <= k < i + 1 && v@[k] == y by {
            if y == x {
                assert(v@[i as int] == y);
            }
            if exists|k: int| 0 <= k < i + 1 && v@[k] == y {
                let k = choose|k: int| 0 <= k < i + 1 && v@[k] == y;
                if k < i {
                    assert(exists|k2: int| 0 <= k2 < i && v@[k2] == y);
                }
            }
        }
        i += 1;
    }
    true
}

proof fn lemma_entry_views(v: Seq<Entry>, n: nat, s: Seq<u8>)
    requires
        v.len() == n,
        forall|k: int| 0 <= k < n ==> (#[trigger] v[k])@ == expected_entry(s, k),
    ensures
        v.map_values(|e: Entry| e@) =~= Seq::new(n, |i: int| expected_entry(s, i)),
{
}

impl ReferenceTable {
    /// Decodes a table. The entries keep the order of the decoded ids.
    pub fn decode(buf: &[u8]) -> (r: Result<ReferenceTable, StoreError>)
        ensures
            r is Ok <==> table_well_formed(buf@),
            r is Ok ==> r->Ok_0@ == table_of(buf@),
            r is Err ==> r->Err_0 == StoreError::InvalidData,
    {
        let s = buf;
        let len = s.len();
        if len < 1 {
            return Err(StoreError::InvalidData);
        }
        let format = s[0];
        let mut pos: usize = 1;
        let mut version: Option<i32> = None;
        if format >= 6 {
            if len < 8 {
                return Err(StoreError::InvalidData);
            }
            version = Some(read_i32(s, 1));
            pos = 5;
        }
        if len - pos < 3 {
            return Err(StoreError::InvalidData);
        }
        let flags = s[pos];
        let n = read_u16(s, pos + 1) as usize;
        pos = pos + 3;
        let has_ids = flags & FLAG_IDENTIFIERS != 0;
        let has_wp = flags & FLAG_WHIRLPOOL != 0;
        assert(pos == deltas_pos(s@));
        assert(n == id_count(s@));
        proof {
            lemma_children_before_monotone(s@, 0, n as nat);
        }
        // Fixed-width columns.
        if len - pos < 2 * n {
            return Err(StoreError::InvalidData);
        }
        let ids = read_deltas(s, pos, n);
        pos = pos + 2 * n;
        let ident_pos = pos;
        if has_ids {
            if len - pos < 4 * n {
                return Err(StoreError::InvalidData);
            }
            pos = pos + 4 * n;
        }
        let crc_pos = pos;
        if len - pos < 4 * n {
            return Err(StoreError::InvalidData);
        }
        pos = pos + 4 * n;
        let wp_pos = pos;
        if has_wp {
            if len - pos < 64 * n {
                return Err(StoreError::InvalidData);
            }
            pos = pos + 64 * n;
        }
        let ver_pos = pos;
        if len - pos < 4 * n {
            return Err(StoreError::InvalidData);
        }
        pos = pos + 4 * n;
        let count_pos = pos;
        if len - pos < 2 * n {
            return Err(StoreError::InvalidData);
        }
        pos = pos + 2 * n;
        assert(pos == child_deltas_pos(s@));
        if !all_distinct(&ids) {
            proof {
                let (a, b) = choose|a: int, b: int| 0 <= a < ids@.len() && 0 <= b < ids@.len() && a != b && ids@[a] == ids@[b];
                assert(entry_id(s@, a) == entry_id(s@, b));
            }
            return Err(StoreError::InvalidData);
        }
        assert(ids_distinct(s@)) by {
            assert forall|a: int, b: int|
                0 <= a < id_count(s@) && 0 <= b < id_count(s@) && a != b implies entry_id(s@, a) != entry_id(s@, b) by {
                assert(ids@[a] != ids@[b]);
            }
        }
        // Delta-coded children of each entry.
        let mut child_ids: Vec<Vec<i32>> = Vec::new();
        let mut total: usize = 0;
        let mut i: usize = 0;
        while i < n
            invariant
                s@ == buf@,
                len == s@.len(),
                n == id_count(s@),
                count_pos == counts_pos(s@),
                count_pos + 2 * n <= len,
                i <= n,
                total == children_before(s@, i as nat),
                pos == child_deltas_pos(s@) + 2 * total,
                pos <= len,
                child_ids@.len() == i,
                forall|k: int| 0 <= k < i ==> (#[trigger] child_ids@[k])@.len() == child_count(s@, k),
                forall|k: int, j: int|
                    0 <= k < i && 0 <= j < child_count(s@, k) ==> #[trigger] child_ids@[k]@[j] == child_id(s@, k, j),
            decreases n - i,
        {
            let c = read_u16(s, count_pos + 2 * i) as usize;
            proof {
                lemma_children_before_monotone(s@, (i + 1) as nat, n as nat);
            }
            assert(c == child_count(s@, i as int));
            assert(children_before(s@, (i + 1) as nat) == total + c);
            if len - pos < 2 * c {
                assert(child_deltas_pos(s@) + 2 * children_before(s@, (i + 1) as nat) > len);
                assert(child_identifiers_pos(s@) > len);
                assert(table_end(s@) >= child_identifiers_pos(s@));
                assert(!table_well_formed(s@));
                return Err(StoreError::InvalidData);
            }
            let ch = read_deltas(s, pos, c);
            child_ids.push(ch);
            pos = pos + 2 * c;
            total = total + c;
            i = i + 1;
        }
        let child_ident_pos = pos;
        assert(child_ident_pos == child_identifiers_pos(s@));
        if has_ids && total > (len - pos) / 4 {
            return Err(StoreError::InvalidData);
        }
        assert(table_end(s@) <= len);
        // Assemble the entries.
        let mut entries: Vec<Entry> = Vec::new();
        let mut before: usize = 0;
        let mut i: usize = 0;
        while i < n
            invariant
                table_well_formed(s@),
                len == s@.len(),
                n == id_count(s@),
                has_ids == has_identifiers(s@),
                has_wp == has_whirlpool(s@),
                ident_pos == identifiers_pos(s@),
                crc_pos == crcs_pos(s@),
                wp_pos == whirlpools_pos(s@),
                ver_pos == versions_pos(s@),
                count_pos == counts_pos(s@),
                child_ident_pos == child_identifiers_pos(s@),
                total == children_before(s@, n as nat),
                ids@.len() == n,
                forall|j: int| 0 <= j < n ==> ids@[j] == delta_sum(s@, deltas_pos(s@), (j + 1) as nat),
                child_ids@.len() == n,
                forall|k: int| 0 <= k < n ==> (#[trigger] child_ids@[k])@.len() == child_count(s@, k),
                forall|k: int, j: int|
                    0 <= k < n && 0 <= j < child_count(s@, k) ==> #[trigger] child_ids@[k]@[j] == child_id(s@, k, j),
                i <= n,
                before == children_before(s@, i as nat),
                entries@.len() == i,
                forall|k: int| 0 <= k < i ==> (#[trigger] entries@[k])@ == expected_entry(s@, k),
            decreases n - i,
        {
            proof {
                lemma_children_before_monotone(s@, (i + 1) as nat, n as nat);
            }
            let ch = &child_ids[i];
            let mut children: Vec<ChildEntry> = Vec::new();
            let mut j: usize = 0;
            while j < ch.len()
                invariant
                    table_well_formed(s@),
                    len == s@.len(),
                    i < n,
                    n == id_count(s@),
                    has_ids == has_identifiers(s@),
                    child_ident_pos == child_identifiers_pos(s@),
                    ch@.len() == child_count(s@, i as int),
                    forall|j2: int| 0 <= j2 < ch@.len() ==> ch@[j2] == child_id(s@, i as int, j2),
                    before == children_before(s@, i as nat),
                    before + ch@.len() <= total,
                    total == children_before(s@, n as nat),
                    j <= ch@.len(),
                    children@.map_values(|c: ChildEntry| c@) == children_upto(s@, i as int, j as nat),
                decreases ch@.len() - j,
            {
                let identifier = if has_ids {
                    Some(read_i32(s, child_ident_pos + 4 * (before + j)))
                } else {
                    None
                };
                let child = ChildEntry { id: ch[j], identifier };
                let ghost prev = children@.map_values(|c: ChildEntry| c@);
                match find_child(&children, ch[j]) {
                    Some(p) => {
                        children.set(p, child);
                        assert(children@.map_values(|c: ChildEntry| c@) =~= prev.update(p as int, child@));
                    },
                    None => {
                        children.push(child);
                        assert(children@.map_values(|c: ChildEntry| c@) =~= prev.push(child@));
                    },
                }
                j += 1;
            }
            let identifier = if has_ids {
                Some(read_i32(s, ident_pos + 4 * i))
            } else {
                None
            };
            let crc = read_i32(s, crc_pos + 4 * i);
            let whirlpool = if has_wp {
                let mut w: Vec<u8> = Vec::new();
                push_range(&mut w, s, wp_pos + 64 * i, wp_pos + 64 * i + 64);
                w
            } else {
                zeros(WHIRLPOOL_SIZE)
            };
            let entry_version = read_i32(s, ver_pos + 4 * i);
            proof {
                lemma_delta_sum_bounds(s@, deltas_pos(s@), (i + 1) as nat);
            }
            let entry = Entry {
                id: ids[i],
                identifier,
                crc,
                whirlpool,
                version: entry_version,
                entries: children,
            };
            assert(entry@.whirlpool =~= expected_entry(s@, i as int).whirlpool);
            assert(entry@ == expected_entry(s@, i as int));
            entries.push(entry);
            before = before + ch.len();
            i = i + 1;
        }
        proof {
            lemma_entry_views(entries@, n as nat, s@);
        }
        Ok(ReferenceTable { format, version, flags, entries })
    }
}

impl ReferenceTable {
    pub fn format(&self) -> (r: u8)
        ensures
            r == self@.format,
    {
        self.format
    }

    pub fn set_format(&mut self, format: u8)
        ensures
            final(self)@ == (TableView { format: format, ..old(self)@ }),
    {
        self.format = format;
    }

    pub fn version(&self) -> (r: Option<i32>)
        ensures
            r == self@.version,
    {
        self.version
    }

    pub fn set_version(&mut self, version: Option<i32>)
        ensures
            final(self)@ == (TableView { version: version, ..old(self)@ }),
    {
        self.version = version;
    }

    pub fn flags(&self) -> (r: u8)
        ensures
            r == self@.flags,
    {
        self.flags
    }

    pub fn set_flags(&mut self, flags: u8)
        ensures
            final(self)@ == (TableView { flags: flags, ..old(self)@ }),
    {
        self.flags = flags;
    }

    pub fn entries(&self) -> (r: &Vec<Entry>)
        ensures
            r@.map_values(|e: Entry| e@) == self@.entries,
    {
        &self.entries
    }

    pub fn entries_mut(&mut self) -> (r: &mut Vec<Entry>)
        ensures
            r@.map_values(|e: Entry| e@) == old(self)@.entries,
            final(self)@ == (TableView { entries: final(r)@.map_values(|e: Entry| e@), ..old(self)@ }),
    {
        &mut self.entries
    }
}

impl Entry {
    pub fn id(&self) -> (r: i32)
        ensures
            r == self@.id,
    {
        self.id
    }

    pub fn identifier(&self) -> (r: Option<i32>)
        ensures
            r == self@.identifier,
    {
        self.identifier
    }

    pub fn set_identifier(&mut self, identifier: Option<i32>)
        ensures
            final(self)@ == (EntryView { identifier: identifier, ..old(self)@ }),
    {
        self.identifier = identifier;
    }

    pub fn crc(&self) -> (r: i32)
        ensures
            r == self@.crc,
    {
        self.crc
    }

    pub fn set_crc(&mut self, crc: i32)
        ensures
            final(self)@ == (EntryView { crc: crc, ..old(self)@ }),
    {
        self.crc = crc;
    }

    pub fn version(&self) -> (r: i32)
        ensures
            r == self@.version,
    {
        self.version
    }

    pub fn set_version(&mut self, version: i32)
        ensures
            final(self)@ == (EntryView { version: version, ..old(self)@ }),
    {
        self.version = version;
    }

    pub fn whirlpool(&self) -> (r: &[u8])
        ensures
            r@ == self@.whirlpool,
    {
        self.whirlpool.as_slice()
    }

    pub fn set_whirlpool(&mut self, whirlpool: Vec<u8>)
        requires
            whirlpool@.len() == 64,
        ensures
            final(self)@ == (EntryView { whirlpool: whirlpool@, ..old(self)@ }),
    {
        self.whirlpool = whirlpool;
    }

    pub fn entries(&self) -> (r: &Vec<ChildEntry>)
        ensures
            r@.map_values(|c: ChildEntry| c@) == self@.children,
    {
        &self.entries
    }

    pub fn entries_mut(&mut self) -> (r: &mut Vec<ChildEntry>)
        ensures
            r@.map_values(|c: ChildEntry| c@) == old(self)@.children,
            final(self)@ == (EntryView { children: final(r)@.map_values(|c: ChildEntry| c@), ..old(self)@ }),
    {
        &mut self.entries
    }
}

impl ChildEntry {
    pub fn id(&self) -> (r: i32)
        ensures
            r == self@.id,
    {
        self.id
    }

    pub fn identifier(&self) -> (r: Option<i32>)
        ensures
            r == self@.identifier,
    {
        self.identifier
    }

    pub fn set_identifier(&mut self, identifier: Option<i32>)
        ensures
            final(self)@ == (ChildView { identifier: identifier, ..old(self)@ }),
    {
        self.identifier = identifier;
    }
}

} // verus!
