//! The statics of a map: for each block of the ground a record of a
//! container.

use super::diff::StaticDiffReader;
use super::land::block_id;
use super::shared::{read_block_statics, statics_lookup, statics_match, StaticLocation};
use crate::error::MulError;
use crate::mul_reader::MulReader;
use vstd::prelude::*;

verus! {

/// What reading the statics of block `id` gives, where the statics of the
/// blocks that `table` names are replaced by those of a patch.
pub open spec fn patched_statics(
    idx: Seq<u8>,
    data: Seq<u8>,
    table: Map<u32, u32>,
    diff_idx: Seq<u8>,
    diff_data: Seq<u8>,
    id: u32,
) -> Result<Seq<StaticLocation>, MulError> {
    if table.contains_key(id) {
        statics_lookup(diff_idx, diff_data, table[id])
    } else {
        statics_lookup(idx, data, id)
    }
}

/// Reads the statics of blocks out of a container.
pub struct StaticReader {
    mul_reader: MulReader,
    width: u32,
    height: u32,
}

impl StaticReader {
    /// The bytes of the index stream.
    pub closed spec fn index_bytes(&self) -> Seq<u8> {
        self.mul_reader.index_bytes()
    }

    /// The bytes of the data stream.
    pub closed spec fn data_bytes(&self) -> Seq<u8> {
        self.mul_reader.data_bytes()
    }

    /// The number of columns of blocks.
    pub closed spec fn spec_width(&self) -> u32 {
        self.width
    }

    /// The number of rows of blocks.
    pub closed spec fn spec_height(&self) -> u32 {
        self.height
    }

    /// A reader of the statics in the given container, for a map of the
    /// given size in blocks.
    pub fn new(mul_reader: MulReader, width_blocks: u32, height_blocks: u32) -> (reader:
        StaticReader)
        ensures
            reader.index_bytes() == mul_reader.index_bytes(),
            reader.data_bytes() == mul_reader.data_bytes(),
            reader.spec_width() == width_blocks,
            reader.spec_height() == height_blocks,
    {
        StaticReader { mul_reader, width: width_blocks, height: height_blocks }
    }

    /// Reads the statics of block `id`: its patch where `patch` has one,
    /// the statics of the map where it has none.
    pub fn read_block(&self, id: u32, patch: Option<&StaticDiffReader>) -> (r: Result<
        Vec<StaticLocation>,
        MulError,
    >)
        ensures
            statics_match(
                r,
                match patch {
                    Some(reader) => patched_statics(
                        self.index_bytes(),
                        self.data_bytes(),
                        reader.table(),
                        reader.index_bytes(),
                        reader.data_bytes(),
                        id,
                    ),
                    None => statics_lookup(self.index_bytes(), self.data_bytes(), id),
                },
            ),
    {
        match patch {
            Some(reader) => match reader.read(id) {
                Some(statics) => statics,
                None => read_block_statics(&self.mul_reader, id),
            },
            None => read_block_statics(&self.mul_reader, id),
        }
    }

    /// Reads the statics of the block at column `x` and row `y`. A place
    /// outside the map, and one whose block id is no 32-bit number, gives
    /// `OutOfBounds`.
    pub fn read_block_from_coordinates(
        &self,
        x: u32,
        y: u32,
        patch: Option<&StaticDiffReader>,
    ) -> (r: Result<Vec<StaticLocation>, MulError>)
        ensures
            !(x < self.spec_width() && y < self.spec_height() && block_id(x, y, self.spec_height())
                <= u32::MAX) ==> r matches Err(MulError::OutOfBounds),
            x < self.spec_width() && y < self.spec_height() && block_id(x, y, self.spec_height())
                <= u32::MAX ==> statics_match(
                r,
                match patch {
                    Some(reader) => patched_statics(
                        self.index_bytes(),
                        self.data_bytes(),
                        reader.table(),
                        reader.index_bytes(),
                        reader.data_bytes(),
                        block_id(x, y, self.spec_height()) as u32,
                    ),
                    None => statics_lookup(
                        self.index_bytes(),
                        self.data_bytes(),
                        block_id(x, y, self.spec_height()) as u32,
                    ),
                },
            ),
    {
        let width: u32 = self.width;
        let height: u32 = self.height;
        if x < width && y < height {
            assert(x * height <= 0xFFFF_FFFF * 0xFFFF_FFFF) by (nonlinear_arith)
                requires
                    x <= 0xFFFF_FFFF,
                    height <= 0xFFFF_FFFF,
            ;
            let id: u64 = y as u64 + (x as u64 * height as u64);
            if id > u32::MAX as u64 {
                return Err(MulError::OutOfBounds);
            }
            self.read_block(id as u32, patch)
        } else {
            Err(MulError::OutOfBounds)
        }
    }
}

} // verus!
