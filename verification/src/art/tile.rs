//! Land tiles: squares of the ground, drawn as diamonds.
//!
//! A land tile record is `|header:u32|pixel:u16 * 1022|`. The pixels are
//! drawn as a diamond of 44 rows that are 2, 4, .. 44, 44, .. 4, 2 pixels
//! long and centred, from the first row down and within a row from the
//! left. The pixels that are left over after the last row are kept and not
//! drawn.

use super::Art;
use crate::canvas::{transparent, Canvas, Rgba8};
use crate::color::{rgba16, Color, Color16};
use crate::error::MulError;
use crate::wire::{get_u16, get_u32, put_u16s, put_u32, u16_at, u16s_at, u16s_bytes, u32_at, u32_bytes};
use vstd::prelude::*;

verus! {

/// A land tile, 44 pixels by 44 pixels.
pub struct Tile {
    /// Header of the record. Unused.
    pub header: u32,
    /// The pixels, row after row of the diamond.
    pub image_data: [Color16; 1022],
}

/// The mathematical value of a [`Tile`].
pub struct TileView {
    pub header: u32,
    pub pixels: Seq<u16>,
}

impl View for Tile {
    type V = TileView;

    open spec fn view(&self) -> TileView {
        TileView { header: self.header, pixels: self.image_data@ }
    }
}

/// The number of pixels in row `y` of the diamond.
pub open spec fn diamond_row_len(y: int) -> int {
    if y < 22 {
        (y + 1) * 2
    } else {
        (44 - y) * 2
    }
}

/// The column at which row `y` of the diamond begins.
pub open spec fn diamond_indent(y: int) -> int {
    22 - diamond_row_len(y) / 2
}

/// The number of pixels in the rows above row `y`.
pub open spec fn diamond_row_start(y: int) -> int
    decreases y,
{
    if y <= 0 {
        0
    } else {
        diamond_row_start(y - 1) + diamond_row_len(y - 1)
    }
}

/// Whether column `x` of row `y` lies on the diamond.
pub open spec fn on_diamond(x: int, y: int) -> bool {
    0 <= y < 44 && diamond_indent(y) <= x < diamond_indent(y) + diamond_row_len(y)
}

/// The pixel at column `x` of row `y` of a drawn tile: its stored pixel on
/// the diamond, nothing beside it.
pub open spec fn diamond_pixel(pixels: Seq<u16>, x: int, y: int) -> Rgba8 {
    if on_diamond(x, y) {
        rgba16(pixels[diamond_row_start(y) + x - diamond_indent(y)])
    } else {
        transparent()
    }
}

/// The picture of a tile.
pub open spec fn tile_picture(pixels: Seq<u16>) -> Seq<Seq<Rgba8>> {
    Seq::new(44, |y: int| Seq::new(44, |x: int| diamond_pixel(pixels, x, y)))
}

/// The tile that a record holds.
pub open spec fn parse_tile(s: Seq<u8>) -> Result<TileView, MulError> {
    if s.len() != 2048 {
        Err(MulError::InvariantViolation)
    } else {
        Ok(TileView { header: u32_at(s, 0), pixels: u16s_at(s, 4, 1022) })
    }
}

/// The record of a tile.
pub open spec fn tile_bytes(t: TileView) -> Seq<u8> {
    u32_bytes(t.header) + u16s_bytes(t.pixels)
}

/// The rows above row `y` hold `y * (y + 1)` pixels in the upper half of
/// the diamond, and all but `(44 - y) * (45 - y)` of 1012 in the lower.
pub proof fn lemma_diamond_row_start(y: int)
    requires
        0 <= y <= 44,
    ensures
        y <= 22 ==> diamond_row_start(y) == y * (y + 1),
        y >= 22 ==> diamond_row_start(y) == 1012 - (44 - y) * (45 - y),
        0 <= diamond_row_start(y) <= 1012,
        y < 44 ==> diamond_row_start(y) + diamond_row_len(y) <= 1012,
    decreases y,
{
    if y == 0 {
        assert(y * (y + 1) == 0) by (nonlinear_arith)
            requires
                y == 0,
        ;
    } else {
        lemma_diamond_row_start(y - 1);
        if y <= 22 {
            assert((y - 1) * y + y * 2 == y * (y + 1)) by (nonlinear_arith);
            assert(y * (y + 1) <= 22 * 23) by (nonlinear_arith)
                requires
                    0 <= y <= 22,
            ;
        }
        if y == 22 {
            assert(y * (y + 1) == 1012 - (44 - y) * (45 - y)) by (nonlinear_arith)
                requires
                    y == 22,
            ;
        }
        if y > 22 {
            assert(1012 - (45 - y) * (46 - y) + (45 - y) * 2 == 1012 - (44 - y) * (45 - y))
                by (nonlinear_arith);
        }
        assert((44 - y) * (45 - y) >= 0 && y * (y + 1) >= 0) by (nonlinear_arith)
            requires
                0 <= y <= 44,
        ;
        if y < 22 {
            assert(y * (y + 1) + (y + 1) * 2 <= 1012) by (nonlinear_arith)
                requires
                    0 <= y < 22,
            ;
        }
        if 22 <= y < 44 {
            assert((44 - y) * (45 - y) >= (44 - y) * 2) by (nonlinear_arith)
                requires
                    22 <= y < 44,
            ;
        }
    }
}

/// The top row of a drawn tile has its two pixels in columns 21 and 22,
/// row 22 is filled from edge to edge, and the diamond has 1012 places in
/// all. A drawn pixel is opaque, so the places of the diamond are the ones
/// that differ from the background, whatever the tile holds.
pub proof fn lemma_diamond_geometry(pixels: Seq<u16>)
    ensures
        forall|x: int| 0 <= x < 44 ==> (on_diamond(x, 0) <==> x == 21 || x == 22),
        forall|x: int| 0 <= x < 44 ==> on_diamond(x, 22),
        diamond_row_start(44) == 1012,
        forall|x: int, y: int|
            0 <= x < 44 && 0 <= y < 44 ==> ((#[trigger] tile_picture(pixels)[y][x]) != transparent()
                <==> on_diamond(x, y)),
        forall|x: int, y: int|
            on_diamond(x, y) ==> 0 <= diamond_row_start(y) + x - diamond_indent(y) < 1012,
{
    lemma_diamond_row_start(44);
    assert((44 - 44) * (45 - 44) == 0) by (nonlinear_arith);
    assert forall|x: int, y: int| on_diamond(x, y) implies 0 <= diamond_row_start(y) + x
        - diamond_indent(y) < 1012 by {
        lemma_diamond_row_start(y);
    }
}

impl Tile {
    /// Reads a tile out of the bytes of its record, which are 2048.
    pub fn decode(data: &[u8]) -> (r: Result<Tile, MulError>)
        ensures
            match r {
                Ok(t) => parse_tile(data@) == Ok::<TileView, MulError>(t@),
                Err(e) => parse_tile(data@) == Err::<TileView, MulError>(e),
            },
            r is Ok <==> data@.len() == 2048,
    {
        if data.len() != 2048 {
            return Err(MulError::InvariantViolation);
        }
        let header: u32 = get_u32(data, 0);
        let mut body: [u16; 1022] = [0u16; 1022];
        let mut idx: usize = 0;
        while idx < 1022
            invariant
                idx <= 1022,
                data.len() == 2048,
                forall|j: int| 0 <= j < idx ==> body@[j] == u16_at(data@, 4 + 2 * j),
            decreases 1022 - idx,
        {
            body[idx] = get_u16(data, 4 + 2 * idx);
            idx += 1;
        }
        assert(body@ =~= u16s_at(data@, 4, 1022));
        Ok(Tile { header, image_data: body })
    }
}

impl Art for Tile {
    open spec fn serializable(&self) -> bool {
        true
    }

    open spec fn wire_bytes(&self) -> Seq<u8> {
        tile_bytes(self@)
    }

    open spec fn drawable(&self) -> bool {
        true
    }

    open spec fn picture_width(&self) -> nat {
        44
    }

    open spec fn picture(&self) -> Seq<Seq<Rgba8>> {
        tile_picture(self.image_data@)
    }

    fn serialize(&self) -> (out: Vec<u8>) {
        let mut writer: Vec<u8> = Vec::new();
        put_u32(&mut writer, self.header);
        put_u16s(&mut writer, self.image_data.as_slice());
        assert(writer@ =~= tile_bytes(self@));
        writer
    }

    fn to_image(&self) -> (img: Canvas) {
        let mut buffer = Canvas::new(44, 44);
        let mut read_idx: usize = 0;
        let mut y: u32 = 0;
        while y < 44
            invariant
                y <= 44,
                buffer.wf(),
                buffer.spec_width() == 44,
                buffer.spec_height() == 44,
                read_idx == diamond_row_start(y as int),
                forall|r: int, c: int|
                    0 <= r < 44 && 0 <= c < 44 ==> (#[trigger] buffer@[r][c]) == if r < y {
                        diamond_pixel(self.image_data@, c, r)
                    } else {
                        transparent()
                    },
            decreases 44 - y,
        {
            let slice_size: u32 = if y >= 22 {
                (44 - y) * 2
            } else {
                (y + 1) * 2
            };
            let indent: u32 = 22 - (slice_size / 2);
            proof {
                lemma_diamond_row_start(y as int);
            }
            let mut x: u32 = 0;
            while x < slice_size
                invariant
                    y < 44,
                    x <= slice_size,
                    slice_size == diamond_row_len(y as int),
                    indent == diamond_indent(y as int),
                    indent + slice_size <= 44,
                    buffer.wf(),
                    buffer.spec_width() == 44,
                    buffer.spec_height() == 44,
                    read_idx == diamond_row_start(y as int) + x,
                    diamond_row_start(y as int) + slice_size <= 1012,
                    forall|r: int, c: int|
                        0 <= r < 44 && 0 <= c < 44 ==> (#[trigger] buffer@[r][c]) == if r < y || (r
                            == y && c < indent + x) {
                            diamond_pixel(self.image_data@, c, r)
                        } else {
                            transparent()
                        },
                decreases slice_size - x,
            {
                let px = self.image_data[read_idx].to_rgba();
                let ghost before = buffer@;
                buffer.put_pixel(indent + x, y, px);
                assert forall|r: int, c: int| 0 <= r < 44 && 0 <= c < 44 implies (
                #[trigger] buffer@[r][c]) == if r < y || (r == y && c < indent + x + 1) {
                    diamond_pixel(self.image_data@, c, r)
                } else {
                    transparent()
                } by {
                    if r != y {
                        assert(buffer@[r] == before[r]);
                    }
                    assert(before[r][c] == if r < y || (r == y && c < indent + x) {
                        diamond_pixel(self.image_data@, c, r)
                    } else {
                        transparent()
                    });
                }
                read_idx += 1;
                x += 1;
            }
            y += 1;
        }
        assert(buffer@ =~~= tile_picture(self.image_data@));
        buffer
    }
}

} // verus!
