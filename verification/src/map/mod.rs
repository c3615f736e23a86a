//! Maps: the ground in blocks of 8 by 8 cells, the statics that stand on
//! it, the colours of the radar, and the files that patch blocks.

pub mod diff;
pub mod land;
pub mod map_size;
pub mod radarcol;
pub mod shared;
pub mod static_location;

pub use self::diff::{MapDiffReader, StaticDiffReader};
pub use self::land::MapReader;
pub use self::radarcol::RadarColReader;
pub use self::shared::{
    read_block, read_block_statics, Block, Cell, StaticLocation, BLOCK_SIZE, MAP0_SIZE, OFFSET,
};
pub use self::static_location::StaticReader;
