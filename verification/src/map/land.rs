//! The ground of a map: blocks in columns, each column from the top.

use super::diff::MapDiffReader;
use super::shared::{block_matches, parse_block, read_block, Block, BlockView};
use crate::error::MulError;
use vstd::prelude::*;

verus! {

/// What reading block `id` of the ground gives, where the blocks that
/// `table` names are replaced by blocks of `diff`.
pub open spec fn patched_block(s: Seq<u8>, table: Map<u32, u32>, diff: Seq<u8>, id: u32) -> Result<
    BlockView,
    MulError,
> {
    if table.contains_key(id) {
        parse_block(diff, table[id])
    } else {
        parse_block(s, id)
    }
}

/// The id of the block at column `x` and row `y` of a map of `height`
/// rows of blocks.
pub open spec fn block_id(x: u32, y: u32, height: u32) -> int {
    y + x * height
}

/// Reads blocks of the ground out of a stream.
pub struct MapReader {
    data: Vec<u8>,
    width: u32,
    height: u32,
}

impl MapReader {
    /// The bytes of the stream.
    pub closed spec fn bytes(&self) -> Seq<u8> {
        self.data@
    }

    /// The number of columns of blocks.
    pub closed spec fn spec_width(&self) -> u32 {
        self.width
    }

    /// The number of rows of blocks.
    pub closed spec fn spec_height(&self) -> u32 {
        self.height
    }

    /// A reader of the map in the given stream, of the given size in
    /// blocks.
    pub fn new(data: Vec<u8>, width: u32, height: u32) -> (reader: MapReader)
        ensures
            reader.bytes() == data@,
            reader.spec_width() == width,
            reader.spec_height() == height,
    {
        MapReader { data, width, height }
    }

    /// Reads block `id`: its patch where `patch` has one, the block of the
    /// map where it has none.
    pub fn read_block(&self, id: u32, patch: Option<&MapDiffReader>) -> (r: Result<Block, MulError>)
        ensures
            block_matches(
                r,
                match patch {
                    Some(reader) => patched_block(
                        self.bytes(),
                        reader.table(),
                        reader.diff_bytes(),
                        id,
                    ),
                    None => parse_block(self.bytes(), id),
                },
            ),
    {
        match patch {
            Some(reader) => match reader.read(id) {
                Some(block) => block,
                None => read_block(self.data.as_slice(), id),
            },
            None => read_block(self.data.as_slice(), id),
        }
    }

    /// Reads the block at column `x` and row `y`. A place outside the map,
    /// and one whose block id is no 32-bit number, gives `OutOfBounds`.
    pub fn read_block_from_coordinates(&self, x: u32, y: u32, patch: Option<&MapDiffReader>) -> (r:
        Result<Block, MulError>)
        ensures
            !(x < self.spec_width() && y < self.spec_height() && block_id(x, y, self.spec_height())
                <= u32::MAX) ==> r matches Err(MulError::OutOfBounds),
            x < self.spec_width() && y < self.spec_height() && block_id(x, y, self.spec_height())
                <= u32::MAX ==> block_matches(
                r,
                match patch {
                    Some(reader) => patched_block(
                        self.bytes(),
                        reader.table(),
                        reader.diff_bytes(),
                        block_id(x, y, self.spec_height()) as u32,
                    ),
                    None => parse_block(self.bytes(), block_id(x, y, self.spec_height()) as u32),
                },
            ),
    {
        let width: u32 = self.width;
        let height: u32 = self.height;
        if x < width && y < height {
            assert(x * height <= 0xFFFF_FFFF * 0xFFFF_FFFF) by (nonlinear_arith)
                requires
                    x <= 0xFFFF_FFFF,
                    height <= 0xFFFF_FFFF,
            ;
            let id: u64 = y as u64 + (x as u64 * height as u64);
            if id > u32::MAX as u64 {
                return Err(MulError::OutOfBounds);
            }
            self.read_block(id as u32, patch)
        } else {
            Err(MulError::OutOfBounds)
        }
    }
}

} // verus!
