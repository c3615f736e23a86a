//! Art together with its properties.

use crate::art::{static_read, tile_read, ArtReader, Static, Tile};
use crate::error::MulError;
use crate::tiledata::{
    map_tile_read, static_tile_read, MapTileData, StaticTileData, TileDataReader,
};
use vstd::prelude::*;

verus! {

/// Reads a piece of art and its properties in one go.
pub struct ArtAndDataReader {
    art_reader: ArtReader,
    data_reader: TileDataReader,
}

impl ArtAndDataReader {
    /// The reader of the art.
    pub closed spec fn art(&self) -> ArtReader {
        self.art_reader
    }

    /// The reader of the properties.
    pub closed spec fn data(&self) -> TileDataReader {
        self.data_reader
    }

    /// A reader over the two given ones.
    pub fn new(art_reader: ArtReader, data_reader: TileDataReader) -> (reader: ArtAndDataReader)
        ensures
            reader.art() == art_reader,
            reader.data() == data_reader,
    {
        ArtAndDataReader { art_reader, data_reader }
    }

    /// Reads land tile `id`, and its properties.
    pub fn read_tile(&self, id: u32) -> (r: (Result<Tile, MulError>, Result<MapTileData, MulError>))
        ensures
            tile_read(r.0, self.art().index_bytes(), self.art().data_bytes(), id),
            map_tile_read(r.1, self.data().bytes(), id),
    {
        let tile = self.art_reader.read_tile(id);
        let data = self.data_reader.read_map_tile_data(id);
        (tile, data)
    }

    /// Reads static art `id`, and its properties.
    pub fn read_static(&self, id: u32) -> (r: (
        Result<Static, MulError>,
        Result<StaticTileData, MulError>,
    ))
        ensures
            static_read(r.0, self.art().index_bytes(), self.art().data_bytes(), id),
            static_tile_read(r.1, self.data().bytes(), id),
    {
        let tile = self.art_reader.read_static(id);
        let data = self.data_reader.read_static_tile_data(id);
        (tile, data)
    }
}

} // verus!
