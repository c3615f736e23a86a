//! Blocks of the ground and the statics of a block.
//!
//! A block of the ground is `|checksum:u32|cell * 64|`, a cell
//! `|graphic:u16|altitude:i8|`. The statics of a block are a record of a
//! container, `|object_id:u16|x:u8|y:u8|altitude:i8|checksum:u16|` each.

use crate::error::MulError;
use crate::mul_reader::{lookup, MulReader};
use crate::wire::{get_u16, get_u32, u16_at, u32_at};
use vstd::prelude::*;

verus! {

/// The size of a block of the ground in bytes.
pub const BLOCK_SIZE: usize = 196;

/// The size of the checksum that a block begins with.
pub const OFFSET: u32 = 4;

/// The number of blocks of the first map.
pub const MAP0_SIZE: u32 = 393216;

/// One cell of the ground.
#[derive(Clone, Copy, Debug, PartialEq, Eq, Structural)]
pub struct Cell {
    pub graphic: u16,
    pub altitude: i8,
}

/// A block of 8 by 8 cells.
#[derive(Clone, Copy)]
pub struct Block {
    /// Not actually used.
    pub checksum: u32,
    pub cells: [Cell; 64],
}

/// The mathematical value of a [`Block`].
pub struct BlockView {
    pub checksum: u32,
    pub cells: Seq<Cell>,
}

impl View for Block {
    type V = BlockView;

    open spec fn view(&self) -> BlockView {
        BlockView { checksum: self.checksum, cells: self.cells@ }
    }
}

/// A static and its place within its block.
#[derive(Clone, Copy, Debug, PartialEq, Eq, Structural)]
pub struct StaticLocation {
    pub object_id: u16,
    pub x: u8,
    pub y: u8,
    pub altitude: i8,
    /// Not actually used.
    pub checksum: u16,
}

/// The two's complement reading of a byte.
pub open spec fn as_signed8(b: u8) -> i8 {
    if b < 128 {
        b as i8
    } else {
        (b as int - 256) as i8
    }
}

/// Reads a byte as a two's complement number.
pub fn signed8(b: u8) -> (v: i8)
    ensures
        v == as_signed8(b),
{
    if b < 128 {
        b as i8
    } else {
        (b as i16 - 256) as i8
    }
}

/// The cell that stands at byte `at`.
pub open spec fn cell_at(s: Seq<u8>, at: int) -> Cell {
    Cell { graphic: u16_at(s, at), altitude: as_signed8(s[at + 2]) }
}

/// The block with the given id in a stream of blocks.
pub open spec fn parse_block(s: Seq<u8>, id: u32) -> Result<BlockView, MulError> {
    let at = id as int * 196;
    if at + 196 > s.len() {
        Err(MulError::Truncated)
    } else {
        Ok(
            BlockView {
                checksum: u32_at(s, at),
                cells: Seq::new(64, |i: int| cell_at(s, at + 4 + 3 * i)),
            },
        )
    }
}

/// The static that stands at byte `at`.
pub open spec fn static_at(s: Seq<u8>, at: int) -> StaticLocation {
    StaticLocation {
        object_id: u16_at(s, at),
        x: s[at + 2],
        y: s[at + 3],
        altitude: as_signed8(s[at + 4]),
        checksum: u16_at(s, at + 5),
    }
}

/// The statics that a record holds. A record that is no whole number of
/// statics is an `InvariantViolation`.
pub open spec fn parse_statics(s: Seq<u8>) -> Result<Seq<StaticLocation>, MulError> {
    if s.len() % 7 != 0 {
        Err(MulError::InvariantViolation)
    } else {
        Ok(Seq::new(s.len() / 7, |i: int| static_at(s, 7 * i)))
    }
}

/// What reading the statics of block `id` gives, for an index stream `idx`
/// over a data stream `data`.
pub open spec fn statics_lookup(idx: Seq<u8>, data: Seq<u8>, id: u32) -> Result<
    Seq<StaticLocation>,
    MulError,
> {
    match lookup(idx, data, id) {
        Ok(rec) => parse_statics(rec.data),
        Err(e) => Err(e),
    }
}

/// Whether a result of a read is the given outcome.
pub open spec fn block_matches(r: Result<Block, MulError>, want: Result<BlockView, MulError>) -> bool {
    match r {
        Ok(block) => want == Ok::<BlockView, MulError>(block@),
        Err(e) => want == Err::<BlockView, MulError>(e),
    }
}

/// Whether a result of a read is the given outcome.
pub open spec fn statics_match(
    r: Result<Vec<StaticLocation>, MulError>,
    want: Result<Seq<StaticLocation>, MulError>,
) -> bool {
    match r {
        Ok(statics) => want == Ok::<Seq<StaticLocation>, MulError>(statics@),
        Err(e) => want == Err::<Seq<StaticLocation>, MulError>(e),
    }
}

impl StaticLocation {
    /// The index of the static's colour among the radar colours, which
    /// hold the colours of the statics after those of the ground.
    pub fn color_idx(&self) -> (idx: u16)
        requires
            self.object_id + 16384 <= u16::MAX,
        ensures
            idx == self.object_id + 16384,
    {
        self.object_id + 16384
    }
}

/// Reads the block with the given id, which stands at byte `id * 196`. A
/// stream that ends before the block does gives `Truncated`.
pub fn read_block(data: &[u8], id: u32) -> (r: Result<Block, MulError>)
    ensures
        block_matches(r, parse_block(data@, id)),
{
    let len: usize = data.len();
    if len < BLOCK_SIZE || (id as u64) > ((len - BLOCK_SIZE) / BLOCK_SIZE) as u64 {
        return Err(MulError::Truncated);
    }
    let at: usize = id as usize * BLOCK_SIZE;
    let checksum: u32 = get_u32(data, at);
    let mut cells: [Cell; 64] = [Cell { graphic: 0, altitude: 0 };64];
    let mut i: usize = 0;
    while i < 64
        invariant
            i <= 64,
            at + 196 <= data.len(),
            forall|j: int| 0 <= j < i ==> cells@[j] == cell_at(data@, at + 4 + 3 * j),
        decreases 64 - i,
    {
        cells[i] = Cell {
            graphic: get_u16(data, at + 4 + 3 * i),
            altitude: signed8(data[at + 4 + 3 * i + 2]),
        };
        i += 1;
    }
    let block = Block { checksum, cells };
    assert(block@.cells =~= Seq::new(64, |i: int| cell_at(data@, at + 4 + 3 * i)));
    Ok(block)
}

/// Reads the statics out of the bytes of their record.
pub fn decode_statics(data: &[u8]) -> (r: Result<Vec<StaticLocation>, MulError>)
    ensures
        statics_match(r, parse_statics(data@)),
{
    let len: usize = data.len();
    if len % 7 != 0 {
        return Err(MulError::InvariantViolation);
    }
    let count: usize = len / 7;
    let mut statics: Vec<StaticLocation> = Vec::new();
    let mut i: usize = 0;
    while i < count
        invariant
            i <= count,
            len == data.len(),
            count * 7 == len,
            statics@.len() == i,
            forall|j: int| 0 <= j < i ==> statics@[j] == static_at(data@, 7 * j),
        decreases count - i,
    {
        let at: usize = 7 * i;
        statics.push(
            StaticLocation {
                object_id: get_u16(data, at),
                x: data[at + 2],
                y: data[at + 3],
                altitude: signed8(data[at + 4]),
                checksum: get_u16(data, at + 5),
            },
        );
        i += 1;
    }
    assert(statics@ =~= Seq::new((len / 7) as nat, |i: int| static_at(data@, 7 * i)));
    Ok(statics)
}

/// Reads the statics of block `id` out of a container.
pub fn read_block_statics(mul_reader: &MulReader, id: u32) -> (r: Result<
    Vec<StaticLocation>,
    MulError,
>)
    ensures
        statics_match(r, statics_lookup(mul_reader.index_bytes(), mul_reader.data_bytes(), id)),
{
    match mul_reader.read(id) {
        Ok(raw) => decode_statics(raw.data.as_slice()),
        Err(e) => Err(e),
    }
}

} // verus!
