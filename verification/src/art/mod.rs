//! Land tiles and static art, which share one container.
//!
//! Records below [`STATIC_OFFSET`] are land tiles ([`tile`]), records from
//! [`STATIC_OFFSET`] on are static art ([`sparse`]).

pub mod sparse;
pub mod tile;

pub use self::sparse::{RunPair, RunView, Static, StaticRow, StaticView};
pub use self::tile::{Tile, TileView};

use self::sparse::{parse_static, static_valid};
use self::tile::parse_tile;
use crate::canvas::{Canvas, Rgba8};
use crate::error::MulError;
use crate::mul_reader::{lookup, MulReader};
use vstd::prelude::*;

verus! {

/// The size of a land tile record in bytes.
pub const TILE_SIZE: u32 = 2048;

/// The id of the first static art record.
pub const STATIC_OFFSET: u32 = 0x4000;

/// The number of pixels that a land tile stores.
pub const TILE_PIXELS: usize = 1022;

/// The width and the height of a drawn land tile.
pub const TILE_EDGE: u32 = 44;

/// Something that has a serialised form and a picture.
pub trait Art {
    /// Whether the value has a serialised form.
    spec fn serializable(&self) -> bool;

    /// The serialised form.
    spec fn wire_bytes(&self) -> Seq<u8>;

    /// Whether the value can be drawn.
    spec fn drawable(&self) -> bool;

    /// The width of the picture.
    spec fn picture_width(&self) -> nat;

    /// The picture: rows from the top, each from the left.
    spec fn picture(&self) -> Seq<Seq<Rgba8>>;

    /// Converts the value back into the bytes of its record.
    fn serialize(&self) -> (out: Vec<u8>)
        requires
            self.serializable(),
        ensures
            out@ == self.wire_bytes(),
    ;

    /// Draws the value.
    fn to_image(&self) -> (img: Canvas)
        requires
            self.drawable(),
        ensures
            img.wf(),
            img.spec_width() == self.picture_width(),
            img@ == self.picture(),
    ;
}

/// What an art record holds.
pub enum TileOrStatic {
    Tile(Tile),
    Static(Static),
}

/// The mathematical value of a [`TileOrStatic`].
pub enum ArtView {
    Tile(TileView),
    Static(StaticView),
}

impl View for TileOrStatic {
    type V = ArtView;

    open spec fn view(&self) -> ArtView {
        match self {
            TileOrStatic::Tile(t) => ArtView::Tile(t@),
            TileOrStatic::Static(s) => ArtView::Static(s@),
        }
    }
}

/// What the record with the given id and bytes holds: static art from
/// [`STATIC_OFFSET`] on, a land tile below.
pub open spec fn parse_art(id: u32, s: Seq<u8>) -> Result<ArtView, MulError> {
    if id >= 0x4000 {
        match parse_static(s) {
            Ok(v) => Ok(ArtView::Static(v)),
            Err(e) => Err(e),
        }
    } else {
        match parse_tile(s) {
            Ok(v) => Ok(ArtView::Tile(v)),
            Err(e) => Err(e),
        }
    }
}

/// What reading art `id` gives, for an index stream `idx` over a data
/// stream `data`.
pub open spec fn art_lookup(idx: Seq<u8>, data: Seq<u8>, id: u32) -> Result<ArtView, MulError> {
    match lookup(idx, data, id) {
        Ok(rec) => parse_art(id, rec.data),
        Err(e) => Err(e),
    }
}

/// Whether `r` is what reading land tile `id` gives: the tile of record
/// `id`, `OutOfBounds` where that record holds static art, and else the
/// failure of the lookup or of the decoding.
pub open spec fn tile_read(r: Result<Tile, MulError>, idx: Seq<u8>, data: Seq<u8>, id: u32) -> bool {
    match art_lookup(idx, data, id) {
        Ok(ArtView::Tile(v)) => r is Ok && r->Ok_0@ == v,
        Ok(ArtView::Static(_)) => r == Err::<Tile, MulError>(MulError::OutOfBounds),
        Err(e) => r == Err::<Tile, MulError>(e),
    }
}

/// Whether `r` is what reading static art `id` gives: the art of record
/// `id + 0x4000`, which is valid, or the failure of the lookup or of the
/// decoding; and `OutOfBounds` where that sum is no 32-bit number.
pub open spec fn static_read(r: Result<Static, MulError>, idx: Seq<u8>, data: Seq<u8>, id: u32) -> bool {
    if id + 0x4000 > u32::MAX {
        r == Err::<Static, MulError>(MulError::OutOfBounds)
    } else {
        match art_lookup(idx, data, (id + 0x4000) as u32) {
            Ok(ArtView::Static(v)) => r is Ok && r->Ok_0@ == v && static_valid(v),
            Ok(ArtView::Tile(_)) => r == Err::<Static, MulError>(MulError::OutOfBounds),
            Err(e) => r == Err::<Static, MulError>(e),
        }
    }
}

/// Reads land tiles and static art out of a container.
pub struct ArtReader {
    mul_reader: MulReader,
}

impl ArtReader {
    /// The bytes of the index stream.
    pub closed spec fn index_bytes(&self) -> Seq<u8> {
        self.mul_reader.index_bytes()
    }

    /// The bytes of the data stream.
    pub closed spec fn data_bytes(&self) -> Seq<u8> {
        self.mul_reader.data_bytes()
    }

    /// A reader of the art in the given container.
    pub fn from_mul(reader: MulReader) -> (art: ArtReader)
        ensures
            art.index_bytes() == reader.index_bytes(),
            art.data_bytes() == reader.data_bytes(),
    {
        ArtReader { mul_reader: reader }
    }

    /// Reads the record `id` and decodes it by its id: as static art from
    /// [`STATIC_OFFSET`] on, as a land tile below.
    pub fn read(&self, id: u32) -> (r: Result<TileOrStatic, MulError>)
        ensures
            match r {
                Ok(art) => art_lookup(self.index_bytes(), self.data_bytes(), id) == Ok::<
                    ArtView,
                    MulError,
                >(art@),
                Err(e) => art_lookup(self.index_bytes(), self.data_bytes(), id) == Err::<
                    ArtView,
                    MulError,
                >(e),
            },
            r matches Ok(TileOrStatic::Static(art)) ==> static_valid(art@),
    {
        let raw = match self.mul_reader.read(id) {
            Ok(raw) => raw,
            Err(e) => {
                return Err(e);
            },
        };
        if id >= STATIC_OFFSET {
            match Static::decode(raw.data.as_slice()) {
                Ok(art) => Ok(TileOrStatic::Static(art)),
                Err(e) => Err(e),
            }
        } else {
            match Tile::decode(raw.data.as_slice()) {
                Ok(tile) => Ok(TileOrStatic::Tile(tile)),
                Err(e) => Err(e),
            }
        }
    }

    /// Reads land tile `id`. An id that holds static art gives
    /// `OutOfBounds`.
    pub fn read_tile(&self, id: u32) -> (r: Result<Tile, MulError>)
        ensures
            tile_read(r, self.index_bytes(), self.data_bytes(), id),
    {
        match self.read(id) {
            Ok(TileOrStatic::Tile(tile)) => Ok(tile),
            Ok(_) => Err(MulError::OutOfBounds),
            Err(e) => Err(e),
        }
    }

    /// Reads static art `id`, which is record `id + STATIC_OFFSET`. An id
    /// for which that sum is no 32-bit number gives `OutOfBounds`.
    pub fn read_static(&self, id: u32) -> (r: Result<Static, MulError>)
        ensures
            static_read(r, self.index_bytes(), self.data_bytes(), id),
    {
        if id > u32::MAX - STATIC_OFFSET {
            return Err(MulError::OutOfBounds);
        }
        match self.read(id + STATIC_OFFSET) {
            Ok(TileOrStatic::Static(stat)) => Ok(stat),
            Ok(_) => Err(MulError::OutOfBounds),
            Err(e) => Err(e),
        }
    }
}

} // verus!
