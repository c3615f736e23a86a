//! Patches: blocks that take the place of blocks of a map.
//!
//! A lookup stream holds 32-bit block ids. The block whose id stands in
//! place `i` of the lookup stream is replaced by block `i` of the patch.
//! Where an id stands in several places, the last place counts.

use super::shared::{
    block_matches, parse_block, read_block, read_block_statics, statics_lookup, statics_match,
    Block, StaticLocation,
};
use crate::error::MulError;
use crate::mul_reader::MulReader;
use crate::wire::{get_u32, u32_at};
use std::collections::HashMap;
use vstd::prelude::*;

verus! {

broadcast use vstd::std_specs::hash::group_hash_axioms;

/// The block id that stands in place `i` of a lookup stream.
pub open spec fn key_at(s: Seq<u8>, i: int) -> u32 {
    u32_at(s, 4 * i)
}

/// The patch block of each patched block id, by the first `n` places of a
/// lookup stream.
pub open spec fn lookup_map(s: Seq<u8>, n: int) -> Map<u32, u32>
    decreases n,
{
    if n <= 0 {
        Map::<u32, u32>::empty()
    } else {
        lookup_map(s, n - 1).insert(key_at(s, n - 1), (n - 1) as u32)
    }
}

/// The patch block of each patched block id, by a lookup stream.
pub open spec fn lookup_table(s: Seq<u8>) -> Map<u32, u32> {
    lookup_map(s, s.len() as int / 4)
}

/// Every id that stands in one of the first `n` places has a patch block.
pub proof fn lemma_lookup_map_dom(s: Seq<u8>, n: int, i: int)
    requires
        0 <= i < n,
    ensures
        lookup_map(s, n).contains_key(key_at(s, i)),
    decreases n,
{
    if i < n - 1 {
        lemma_lookup_map_dom(s, n - 1, i);
    }
}

/// Every id with a patch block stands in one of the first `n` places.
pub proof fn lemma_lookup_map_key(s: Seq<u8>, n: int, key: u32)
    requires
        lookup_map(s, n).contains_key(key),
    ensures
        exists|i: int| 0 <= i < n && key == #[trigger] key_at(s, i),
    decreases n,
{
    if n > 0 {
        if key == key_at(s, n - 1) {
        } else {
            lemma_lookup_map_key(s, n - 1, key);
        }
    }
}

/// Reads a lookup stream: the ids in the order in which they stand, and the
/// patch block of each.
fn read_lookup(lookup: &[u8]) -> (r: Result<(Vec<u32>, HashMap<u32, u32>), MulError>)
    ensures
        r is Ok <==> lookup@.len() / 4 <= u32::MAX,
        r is Err ==> r->Err_0 == MulError::OutOfBounds,
        r matches Ok((keys, table)) ==> {
            &&& table@ == lookup_table(lookup@)
            &&& keys@.len() == lookup@.len() / 4
            &&& forall|i: int| 0 <= i < keys@.len() ==> keys@[i] == key_at(lookup@, i)
        },
{
    let count: usize = lookup.len() / 4;
    if count as u64 > u32::MAX as u64 {
        return Err(MulError::OutOfBounds);
    }
    let mut keys: Vec<u32> = Vec::new();
    let mut table: HashMap<u32, u32> = HashMap::new();
    let mut i: usize = 0;
    while i < count
        invariant
            i <= count,
            count == lookup@.len() / 4,
            4 * count <= lookup.len(),
            count <= u32::MAX,
            table@ == lookup_map(lookup@, i as int),
            keys@.len() == i,
            forall|j: int| 0 <= j < i ==> keys@[j] == key_at(lookup@, j),
        decreases count - i,
    {
        let key: u32 = get_u32(lookup, 4 * i);
        table.insert(key, i as u32);
        keys.push(key);
        i += 1;
    }
    Ok((keys, table))
}

/// Replaces blocks of the ground.
pub struct MapDiffReader {
    lookup_table: HashMap<u32, u32>,
    keys: Vec<u32>,
    diff: Vec<u8>,
}

impl MapDiffReader {
    /// The patch block of each patched block id.
    pub closed spec fn table(&self) -> Map<u32, u32> {
        self.lookup_table@
    }

    /// The bytes of the patch blocks.
    pub closed spec fn diff_bytes(&self) -> Seq<u8> {
        self.diff@
    }

    /// The ids of the table are the ones that the reader walks through.
    pub closed spec fn wf(&self) -> bool {
        &&& forall|i: int| 0 <= i < self.keys@.len() ==> self.table().contains_key(self.keys@[i])
        &&& forall|key: u32|
            self.table().contains_key(key) ==> exists|i: int|
                0 <= i < self.keys@.len() && self.keys@[i] == key
    }

    /// A reader of the patch blocks in `diff`, which replace the blocks
    /// that `lookup` names. A lookup stream of more places than a 32-bit
    /// number can count gives `OutOfBounds`.
    pub fn new(lookup: &[u8], diff: Vec<u8>) -> (r: Result<MapDiffReader, MulError>)
        ensures
            r is Ok <==> lookup@.len() / 4 <= u32::MAX,
            r is Err ==> r->Err_0 == MulError::OutOfBounds,
            r matches Ok(reader) ==> reader.wf() && reader.table() == lookup_table(lookup@)
                && reader.diff_bytes() == diff@,
    {
        match read_lookup(lookup) {
            Err(e) => Err(e),
            Ok((keys, table)) => {
                let reader = MapDiffReader { lookup_table: table, keys, diff };
                proof {
                    let n = lookup@.len() as int / 4;
                    assert forall|i: int| 0 <= i < reader.keys@.len() implies reader.table().contains_key(
                    reader.keys@[i]) by {
                        lemma_lookup_map_dom(lookup@, n, i);
                    }
                    assert forall|key: u32| reader.table().contains_key(key) implies exists|i: int|
                        0 <= i < reader.keys@.len() && reader.keys@[i] == key by {
                        lemma_lookup_map_key(lookup@, n, key);
                        let i = choose|i: int| 0 <= i < n && key == #[trigger] key_at(lookup@, i);
                        assert(reader.keys@[i] == key);
                    }
                }
                Ok(reader)
            },
        }
    }

    /// The patch of block `idx`, if it has one.
    pub fn read(&self, idx: u32) -> (r: Option<Result<Block, MulError>>)
        ensures
            r is Some <==> self.table().contains_key(idx),
            r matches Some(block) ==> block_matches(
                block,
                parse_block(self.diff_bytes(), self.table()[idx]),
            ),
    {
        match self.lookup_table.get(&idx) {
            Some(block_idx) => Some(read_block(self.diff.as_slice(), *block_idx)),
            None => None,
        }
    }

    /// The patch of every block that has one, by block id.
    pub fn read_all(&self) -> (out: HashMap<u32, Result<Block, MulError>>)
        requires
            self.wf(),
        ensures
            out@.dom() == self.table().dom(),
            forall|key: u32|
                self.table().contains_key(key) ==> block_matches(
                    #[trigger] out@[key],
                    parse_block(self.diff_bytes(), self.table()[key]),
                ),
    {
        let mut out: HashMap<u32, Result<Block, MulError>> = HashMap::new();
        let mut i: usize = 0;
        while i < self.keys.len()
            invariant
                i <= self.keys.len(),
                self.wf(),
                forall|j: int| 0 <= j < i ==> out@.contains_key(self.keys@[j]),
                forall|key: u32|
                    #![trigger out@.contains_key(key)]
                    out@.contains_key(key) ==> self.table().contains_key(key) && block_matches(
                        out@[key],
                        parse_block(self.diff_bytes(), self.table()[key]),
                    ),
            decreases self.keys.len() - i,
        {
            let map_idx: u32 = self.keys[i];
            assert(self.table().contains_key(self.keys@[i as int]));
            let ghost before = out@;
            match self.read(map_idx) {
                Some(block) => {
                    out.insert(map_idx, block);
                },
                None => {},
            }
            assert forall|key: u32| #[trigger]
                out@.contains_key(key) implies self.table().contains_key(key) && block_matches(
                out@[key],
                parse_block(self.diff_bytes(), self.table()[key]),
            ) by {
                if key != map_idx {
                    assert(before.contains_key(key));
                    assert(out@[key] == before[key]);
                }
            }
            assert forall|j: int| 0 <= j < i + 1 implies out@.contains_key(self.keys@[j]) by {
                if j < i {
                    assert(before.contains_key(self.keys@[j]));
                }
            }
            i += 1;
        }
        assert forall|key: u32| self.table().contains_key(key) implies out@.contains_key(key) by {
            let j = choose|j: int| 0 <= j < self.keys@.len() && self.keys@[j] == key;
            assert(out@.contains_key(self.keys@[j]));
        }
        assert(out@.dom() =~= self.table().dom());
        out
    }
}

/// Replaces the statics of blocks.
pub struct StaticDiffReader {
    mul_reader: MulReader,
    lookup_table: HashMap<u32, u32>,
    keys: Vec<u32>,
}

impl StaticDiffReader {
    /// The patch block of each patched block id.
    pub closed spec fn table(&self) -> Map<u32, u32> {
        self.lookup_table@
    }

    /// The bytes of the index stream of the patch.
    pub closed spec fn index_bytes(&self) -> Seq<u8> {
        self.mul_reader.index_bytes()
    }

    /// The bytes of the data stream of the patch.
    pub closed spec fn data_bytes(&self) -> Seq<u8> {
        self.mul_reader.data_bytes()
    }

    /// The ids of the table are the ones that the reader walks through.
    pub closed spec fn wf(&self) -> bool {
        &&& forall|i: int| 0 <= i < self.keys@.len() ==> self.table().contains_key(self.keys@[i])
        &&& forall|key: u32|
            self.table().contains_key(key) ==> exists|i: int|
                0 <= i < self.keys@.len() && self.keys@[i] == key
    }

    /// A reader of the patch statics in the container `diff`, which replace
    /// those of the blocks that `lookup` names. A lookup stream of more
    /// places than a 32-bit number can count gives `OutOfBounds`.
    pub fn new(lookup: &[u8], diff: MulReader) -> (r: Result<StaticDiffReader, MulError>)
        ensures
            r is Ok <==> lookup@.len() / 4 <= u32::MAX,
            r is Err ==> r->Err_0 == MulError::OutOfBounds,
            r matches Ok(reader) ==> reader.wf() && reader.table() == lookup_table(lookup@)
                && reader.index_bytes() == diff.index_bytes() && reader.data_bytes()
                == diff.data_bytes(),
    {
        match read_lookup(lookup) {
            Err(e) => Err(e),
            Ok((keys, table)) => {
                let reader = StaticDiffReader { mul_reader: diff, lookup_table: table, keys };
                proof {
                    let n = lookup@.len() as int / 4;
                    assert forall|i: int| 0 <= i < reader.keys@.len() implies reader.table().contains_key(
                    reader.keys@[i]) by {
                        lemma_lookup_map_dom(lookup@, n, i);
                    }
                    assert forall|key: u32| reader.table().contains_key(key) implies exists|i: int|
                        0 <= i < reader.keys@.len() && reader.keys@[i] == key by {
                        lemma_lookup_map_key(lookup@, n, key);
                        let i = choose|i: int| 0 <= i < n && key == #[trigger] key_at(lookup@, i);
                        assert(reader.keys@[i] == key);
                    }
                }
                Ok(reader)
            },
        }
    }

    /// The patch of the statics of block `idx`, if it has one.
    pub fn read(&self, idx: u32) -> (r: Option<Result<Vec<StaticLocation>, MulError>>)
        ensures
            r is Some <==> self.table().contains_key(idx),
            r matches Some(statics) ==> statics_match(
                statics,
                statics_lookup(self.index_bytes(), self.data_bytes(), self.table()[idx]),
            ),
    {
        match self.lookup_table.get(&idx) {
            Some(block_idx) => Some(read_block_statics(&self.mul_reader, *block_idx)),
            None => None,
        }
    }

    /// The patch of the statics of every block that has one, by block id.
    pub fn read_all(&self) -> (out: HashMap<u32, Result<Vec<StaticLocation>, MulError>>)
        requires
            self.wf(),
        ensures
            out@.dom() == self.table().dom(),
            forall|key: u32|
                self.table().contains_key(key) ==> statics_match(
                    #[trigger] out@[key],
                    statics_lookup(self.index_bytes(), self.data_bytes(), self.table()[key]),
                ),
    {
        let mut out: HashMap<u32, Result<Vec<StaticLocation>, MulError>> = HashMap::new();
        let mut i: usize = 0;
        while i < self.keys.len()
            invariant
                i <= self.keys.len(),
                self.wf(),
                forall|j: int| 0 <= j < i ==> out@.contains_key(self.keys@[j]),
                forall|key: u32|
                    #![trigger out@.contains_key(key)]
                    out@.contains_key(key) ==> self.table().contains_key(key) && statics_match(
                        out@[key],
                        statics_lookup(self.index_bytes(), self.data_bytes(), self.table()[key]),
                    ),
            decreases self.keys.len() - i,
        {
            let map_idx: u32 = self.keys[i];
            assert(self.table().contains_key(self.keys@[i as int]));
            let ghost before = out@;
            match self.read(map_idx) {
                Some(statics) => {
                    out.insert(map_idx, statics);
                },
                None => {},
            }
            assert forall|key: u32| #[trigger]
                out@.contains_key(key) implies self.table().contains_key(key) && statics_match(
                out@[key],
                statics_lookup(self.index_bytes(), self.data_bytes(), self.table()[key]),
            ) by {
                if key != map_idx {
                    assert(before.contains_key(key));
                    assert(out@[key] == before[key]);
                }
            }
            assert forall|j: int| 0 <= j < i + 1 implies out@.contains_key(self.keys@[j]) by {
                if j < i {
                    assert(before.contains_key(self.keys@[j]));
                }
            }
            i += 1;
        }
        assert forall|key: u32| self.table().contains_key(key) implies out@.contains_key(key) by {
            let j = choose|j: int| 0 <= j < self.keys@.len() && self.keys@[j] == key;
            assert(out@.contains_key(self.keys@[j]));
        }
        assert(out@.dom() =~= self.table().dom());
        out
    }
}

} // verus!
