//! Texture maps, which are drawn where the ground is not flat.
//!
//! A texture record is a square of 16-bit colours, row after row: 64 by 64
//! pixels, or 128 by 128 for a record of `0x8000` bytes and more.

use crate::canvas::{transparent, Canvas, Rgba8};
use crate::color::{rgba16, Color, Color16};
use crate::error::MulError;
use crate::mul_reader::{lookup, MulReader};
use crate::wire::{get_u16s, u16s_at};
use vstd::arithmetic::div_mod::{lemma_fundamental_div_mod, lemma_fundamental_div_mod_converse};
use vstd::prelude::*;

verus! {

/// The number of bytes from which on a texture is a large one.
pub const LARGE_TILE: usize = 0x8000;

/// A texture.
pub struct TexMap {
    pub data: Vec<Color16>,
}

/// The edge of the texture with the given number of pixels.
pub open spec fn texture_edge(pixels: nat) -> nat {
    if pixels * 2 >= 0x8000 {
        128
    } else {
        64
    }
}

/// The picture of a texture: its pixels row after row, and nothing where
/// they end.
pub open spec fn texture_picture(data: Seq<u16>) -> Seq<Seq<Rgba8>> {
    let edge = texture_edge(data.len());
    Seq::new(
        edge,
        |y: int|
            Seq::new(
                edge,
                |x: int|
                    if y * edge + x < data.len() {
                        rgba16(data[y * edge + x])
                    } else {
                        transparent()
                    },
            ),
    )
}

/// The texture that a record holds: its whole 16-bit words.
pub open spec fn parse_texture(s: Seq<u8>) -> Seq<u16> {
    u16s_at(s, 0, (s.len() / 2) as nat)
}

impl TexMap {
    /// Whether the texture can be drawn: it has no more pixels than its
    /// square has places.
    pub open spec fn drawable(&self) -> bool {
        self.data@.len() <= texture_edge(self.data@.len()) * texture_edge(self.data@.len())
    }

    /// Whether the texture can be drawn.
    pub fn is_drawable(&self) -> (b: bool)
        ensures
            b == self.drawable(),
    {
        if self.data.len() >= LARGE_TILE / 2 {
            self.data.len() <= 128 * 128
        } else {
            self.data.len() <= 64 * 64
        }
    }

    /// Reads a texture out of the bytes of its record.
    pub fn decode(data: &[u8]) -> (tex: TexMap)
        ensures
            tex.data@ == parse_texture(data@),
    {
        TexMap { data: get_u16s(data, 0, data.len() / 2) }
    }

    /// Draws the texture.
    pub fn to_image(&self) -> (img: Canvas)
        requires
            self.drawable(),
        ensures
            img.wf(),
            img.spec_width() == texture_edge(self.data@.len()),
            img@ == texture_picture(self.data@),
    {
        let n: usize = self.data.len();
        let tile_width: u32 = if n >= LARGE_TILE / 2 {
            128
        } else {
            64
        };
        let mut buffer = Canvas::new(tile_width, tile_width);
        let mut idx: usize = 0;
        while idx < n
            invariant
                idx <= n,
                n == self.data@.len(),
                n <= tile_width * tile_width,
                tile_width == texture_edge(self.data@.len()),
                tile_width == 64 || tile_width == 128,
                buffer.wf(),
                buffer.spec_width() == tile_width,
                buffer.spec_height() == tile_width,
                forall|r: int, c: int|
                    0 <= r < tile_width && 0 <= c < tile_width ==> (#[trigger] buffer@[r][c])
                        == if r * tile_width + c < idx {
                        rgba16(self.data@[r * tile_width + c])
                    } else {
                        transparent()
                    },
            decreases n - idx,
        {
            let x: u32 = idx as u32 % tile_width;
            let y: u32 = idx as u32 / tile_width;
            proof {
                lemma_fundamental_div_mod(idx as int, tile_width as int);
                assert(y < tile_width && y * tile_width + x == idx) by (nonlinear_arith)
                    requires
                        idx == tile_width * y + x,
                        idx < tile_width * tile_width,
                        0 <= x < tile_width,
                ;
            }
            let px = self.data[idx].to_rgba();
            let ghost before = buffer@;
            buffer.put_pixel(x, y, px);
            assert forall|r: int, c: int| 0 <= r < tile_width && 0 <= c < tile_width implies (
            #[trigger] buffer@[r][c]) == if r * tile_width + c < idx + 1 {
                rgba16(self.data@[r * tile_width + c])
            } else {
                transparent()
            } by {
                if r != y {
                    assert(buffer@[r] == before[r]);
                }
                if r * tile_width + c == idx {
                    lemma_fundamental_div_mod_converse(idx as int, tile_width as int, r, c);
                }
                assert(before[r][c] == if r * tile_width + c < idx {
                    rgba16(self.data@[r * tile_width + c])
                } else {
                    transparent()
                });
            }
            idx += 1;
        }
        assert(buffer@ =~~= texture_picture(self.data@));
        buffer
    }
}

/// What reading texture `id` gives, for an index stream `idx` over a data
/// stream `data`.
pub open spec fn texture_lookup(idx: Seq<u8>, data: Seq<u8>, id: u32) -> Result<Seq<u16>, MulError> {
    match lookup(idx, data, id) {
        Ok(rec) => Ok(parse_texture(rec.data)),
        Err(e) => Err(e),
    }
}

/// Reads textures out of a container.
pub struct TexMapsReader {
    mul_reader: MulReader,
}

impl TexMapsReader {
    /// The bytes of the index stream.
    pub closed spec fn index_bytes(&self) -> Seq<u8> {
        self.mul_reader.index_bytes()
    }

    /// The bytes of the data stream.
    pub closed spec fn data_bytes(&self) -> Seq<u8> {
        self.mul_reader.data_bytes()
    }

    /// A reader of the textures in the given container.
    pub fn from_mul(reader: MulReader) -> (textures: TexMapsReader)
        ensures
            textures.index_bytes() == reader.index_bytes(),
            textures.data_bytes() == reader.data_bytes(),
    {
        TexMapsReader { mul_reader: reader }
    }

    /// Reads the record `id` as a texture.
    pub fn read(&self, id: u32) -> (r: Result<TexMap, MulError>)
        ensures
            match r {
                Ok(tex) => texture_lookup(self.index_bytes(), self.data_bytes(), id) == Ok::<
                    Seq<u16>,
                    MulError,
                >(tex.data@),
                Err(e) => texture_lookup(self.index_bytes(), self.data_bytes(), id) == Err::<
                    Seq<u16>,
                    MulError,
                >(e),
            },
    {
        match self.mul_reader.read(id) {
            Ok(raw) => Ok(TexMap::decode(raw.data.as_slice())),
            Err(e) => Err(e),
        }
    }
}

} // verus!
