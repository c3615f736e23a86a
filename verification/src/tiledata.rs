//! The properties of land tiles and statics.
//!
//! The properties stand in one stream, in groups of 32 with a header of
//! four bytes before each group: first the land tiles,
//! `|flags:u32|texture_id:u16|name|`, and from byte 428032 on the statics,
//! `|flags:u32|weight:u8|quality:u8|u16|u8|quantity:u8|anim_id:u16|u8|hue:u8|u16|height:u8|name|`.
//! A name ends with a zero byte.

use crate::error::MulError;
use crate::text::{find_nul, read_text, text_of, until_nul};
use crate::wire::{get_u16, get_u32, u16_at, u32_at};
use vstd::prelude::*;
use vstd::slice::slice_subrange;

verus! {

/// The properties that the flags of a tile can say.
#[derive(Clone, Copy, Debug, PartialEq, Eq, Structural)]
pub enum Flags {
    BackgroundFlag,
    WeaponFlag,
    TransparentFlag,
    TranslucentFlag,
    WallFlag,
    DamagingFlag,
    ImpassableFlag,
    WetFlag,
    UnknownFlag,
    SurfaceFlag,
    BridgeFlag,
    StackableFlag,
    WindowFlag,
    NoShootFlag,
    PrefixAFlag,
    PrefixAnFlag,
    InternalFlag,
    FoliageFlag,
    PartialHueFlag,
    Unknown1Flag,
    MapFlag,
    ContainerFlag,
    WearableFlag,
    LightSourceFlag,
    AnimatedFlag,
    NoDiagonalFlag,
    Unknown2Flag,
    ArmorFlag,
    RoofFlag,
    DoorFlag,
    StairBackFlag,
    StairRightFlag,
}

/// The place of a property among the 32 bits of the flags, the lowest bit
/// being place 0.
pub open spec fn flag_place(flag: Flags) -> nat {
    match flag {
        Flags::BackgroundFlag => 0,
        Flags::WeaponFlag => 1,
        Flags::TransparentFlag => 2,
        Flags::TranslucentFlag => 3,
        Flags::WallFlag => 4,
        Flags::DamagingFlag => 5,
        Flags::ImpassableFlag => 6,
        Flags::WetFlag => 7,
        Flags::UnknownFlag => 8,
        Flags::SurfaceFlag => 9,
        Flags::BridgeFlag => 10,
        Flags::StackableFlag => 11,
        Flags::WindowFlag => 12,
        Flags::NoShootFlag => 13,
        Flags::PrefixAFlag => 14,
        Flags::PrefixAnFlag => 15,
        Flags::InternalFlag => 16,
        Flags::FoliageFlag => 17,
        Flags::PartialHueFlag => 18,
        Flags::Unknown1Flag => 19,
        Flags::MapFlag => 20,
        Flags::ContainerFlag => 21,
        Flags::WearableFlag => 22,
        Flags::LightSourceFlag => 23,
        Flags::AnimatedFlag => 24,
        Flags::NoDiagonalFlag => 25,
        Flags::Unknown2Flag => 26,
        Flags::ArmorFlag => 27,
        Flags::RoofFlag => 28,
        Flags::DoorFlag => 29,
        Flags::StairBackFlag => 30,
        Flags::StairRightFlag => 31,
    }
}

/// The flags in which only the given property is set.
pub open spec fn flag_bits(flag: Flags) -> u32 {
    vstd::arithmetic::power2::pow2(flag_place(flag)) as u32
}

impl Flags {
    /// The flags in which only this property is set.
    pub fn bits(&self) -> (b: u32)
        ensures
            b == flag_bits(*self),
    {
        proof {
            vstd::arithmetic::power2::lemma2_to64();
        }
        match self {
            Flags::BackgroundFlag => 0x00000001,
            Flags::WeaponFlag => 0x00000002,
            Flags::TransparentFlag => 0x00000004,
            Flags::TranslucentFlag => 0x00000008,
            Flags::WallFlag => 0x00000010,
            Flags::DamagingFlag => 0x00000020,
            Flags::ImpassableFlag => 0x00000040,
            Flags::WetFlag => 0x00000080,
            Flags::UnknownFlag => 0x00000100,
            Flags::SurfaceFlag => 0x00000200,
            Flags::BridgeFlag => 0x00000400,
            Flags::StackableFlag => 0x00000800,
            Flags::WindowFlag => 0x00001000,
            Flags::NoShootFlag => 0x00002000,
            Flags::PrefixAFlag => 0x00004000,
            Flags::PrefixAnFlag => 0x00008000,
            Flags::InternalFlag => 0x00010000,
            Flags::FoliageFlag => 0x00020000,
            Flags::PartialHueFlag => 0x00040000,
            Flags::Unknown1Flag => 0x00080000,
            Flags::MapFlag => 0x00100000,
            Flags::ContainerFlag => 0x00200000,
            Flags::WearableFlag => 0x00400000,
            Flags::LightSourceFlag => 0x00800000,
            Flags::AnimatedFlag => 0x01000000,
            Flags::NoDiagonalFlag => 0x02000000,
            Flags::Unknown2Flag => 0x04000000,
            Flags::ArmorFlag => 0x08000000,
            Flags::RoofFlag => 0x10000000,
            Flags::DoorFlag => 0x20000000,
            Flags::StairBackFlag => 0x40000000,
            Flags::StairRightFlag => 0x80000000,
        }
    }
}

/// The size of the header before each group of 32 tiles.
pub const GROUP_HEADER_SIZE: u32 = 4;

/// The size that the place of a land tile is reckoned with.
pub const MAP_TILE_SIZE: u32 = 26;

/// The size that the place of a static is reckoned with.
pub const STATIC_TILE_SIZE: u32 = 37;

/// The byte from which on the statics stand.
pub const STATIC_OFFSET: u32 = 428032;

/// The properties of a land tile.
#[derive(Clone)]
pub struct MapTileData {
    pub flags: u32,
    pub texture_id: u16,
    pub name: String,
}

/// The mathematical value of a [`MapTileData`].
pub struct MapTileView {
    pub flags: u32,
    pub texture_id: u16,
    pub name: Seq<char>,
}

impl View for MapTileData {
    type V = MapTileView;

    open spec fn view(&self) -> MapTileView {
        MapTileView { flags: self.flags, texture_id: self.texture_id, name: self.name@ }
    }
}

/// The properties of a static.
#[derive(Clone)]
pub struct StaticTileData {
    pub flags: u32,
    pub weight: u8,
    pub quality_layer_light_id: u8,
    pub quantity_weapon_class_armor_class: u8,
    pub anim_id: u16,
    pub hue: u8,
    pub height_capacity: u8,
    pub name: String,
}

/// The mathematical value of a [`StaticTileData`].
pub struct StaticTileView {
    pub flags: u32,
    pub weight: u8,
    pub quality_layer_light_id: u8,
    pub quantity_weapon_class_armor_class: u8,
    pub anim_id: u16,
    pub hue: u8,
    pub height_capacity: u8,
    pub name: Seq<char>,
}

impl View for StaticTileData {
    type V = StaticTileView;

    open spec fn view(&self) -> StaticTileView {
        StaticTileView {
            flags: self.flags,
            weight: self.weight,
            quality_layer_light_id: self.quality_layer_light_id,
            quantity_weapon_class_armor_class: self.quantity_weapon_class_armor_class,
            anim_id: self.anim_id,
            hue: self.hue,
            height_capacity: self.height_capacity,
            name: self.name@,
        }
    }
}

/// The byte at which the properties of land tile `idx` stand: a header
/// for its group and each group before it, and 26 bytes for each tile
/// before it.
pub open spec fn map_tile_offset(idx: u32) -> int {
    idx * 26 + (idx / 32 + 1) * 4
}

/// The byte at which the properties of static `idx` stand: after the land
/// tiles, a header for its group and each group before it, and 37 bytes
/// for each static before it.
pub open spec fn static_tile_offset(idx: u32) -> int {
    idx * 37 + (idx / 32 + 1) * 4 + 428032
}

/// The name that stands from byte `at` on, up to a zero byte or the end
/// of the stream. A name that is no UTF-8 is an `InvariantViolation`.
pub open spec fn name_at(s: Seq<u8>, at: int) -> Result<Seq<char>, MulError> {
    match text_of(until_nul(s, at, s.len() as int)) {
        Some(name) => Ok(name),
        None => Err(MulError::InvariantViolation),
    }
}

/// The properties of land tile `idx` in a stream.
pub open spec fn parse_map_tile(s: Seq<u8>, idx: u32) -> Result<MapTileView, MulError> {
    let at = map_tile_offset(idx);
    if at + 6 > s.len() {
        Err(MulError::Truncated)
    } else {
        match name_at(s, at + 6) {
            Err(e) => Err(e),
            Ok(name) => Ok(
                MapTileView { flags: u32_at(s, at), texture_id: u16_at(s, at + 4), name },
            ),
        }
    }
}

/// The properties of static `idx` in a stream.
pub open spec fn parse_static_tile(s: Seq<u8>, idx: u32) -> Result<StaticTileView, MulError> {
    let at = static_tile_offset(idx);
    if at + 17 > s.len() {
        Err(MulError::Truncated)
    } else {
        match name_at(s, at + 17) {
            Err(e) => Err(e),
            Ok(name) => Ok(
                StaticTileView {
                    flags: u32_at(s, at),
                    weight: s[at + 4],
                    quality_layer_light_id: s[at + 5],
                    quantity_weapon_class_armor_class: s[at + 9],
                    anim_id: u16_at(s, at + 10),
                    hue: s[at + 13],
                    height_capacity: s[at + 16],
                    name,
                },
            ),
        }
    }
}

/// Whether `r` is what reading the properties of land tile `idx` gives.
pub open spec fn map_tile_read(r: Result<MapTileData, MulError>, s: Seq<u8>, idx: u32) -> bool {
    match r {
        Ok(tile) => parse_map_tile(s, idx) == Ok::<MapTileView, MulError>(tile@),
        Err(e) => parse_map_tile(s, idx) == Err::<MapTileView, MulError>(e),
    }
}

/// Whether `r` is what reading the properties of static `idx` gives.
pub open spec fn static_tile_read(r: Result<StaticTileData, MulError>, s: Seq<u8>, idx: u32) -> bool {
    match r {
        Ok(tile) => parse_static_tile(s, idx) == Ok::<StaticTileView, MulError>(tile@),
        Err(e) => parse_static_tile(s, idx) == Err::<StaticTileView, MulError>(e),
    }
}

/// Reads the name that stands from byte `at` on.
fn read_name(data: &[u8], at: usize) -> (r: Result<String, MulError>)
    requires
        at <= data.len(),
    ensures
        match r {
            Ok(name) => name_at(data@, at as int) == Ok::<Seq<char>, MulError>(name@),
            Err(e) => name_at(data@, at as int) == Err::<Seq<char>, MulError>(e),
        },
{
    let end: usize = find_nul(data, at, data.len());
    match read_text(slice_subrange(data, at, end)) {
        Some(name) => Ok(name),
        None => Err(MulError::InvariantViolation),
    }
}

/// Reads the properties of tiles out of a stream.
pub struct TileDataReader {
    data: Vec<u8>,
}

impl TileDataReader {
    /// The bytes of the stream.
    pub closed spec fn bytes(&self) -> Seq<u8> {
        self.data@
    }

    /// A reader of the properties in the given stream.
    pub fn new(data: Vec<u8>) -> (reader: TileDataReader)
        ensures
            reader.bytes() == data@,
    {
        TileDataReader { data }
    }

    /// The byte at which the properties of land tile `idx` stand.
    pub fn calculate_map_tile_offset(&self, idx: u32) -> (at: u64)
        ensures
            at == map_tile_offset(idx),
    {
        let group_header_jumps: u64 = ((idx as u64 / 32) + 1) * 4;
        (idx as u64 * 26) + group_header_jumps
    }

    /// The byte at which the properties of static `idx` stand.
    pub fn calculate_static_tile_offset(&self, idx: u32) -> (at: u64)
        ensures
            at == static_tile_offset(idx),
    {
        let group_header_jumps: u64 = ((idx as u64 / 32) + 1) * 4;
        (idx as u64 * 37) + group_header_jumps + 428032
    }

    /// Reads the properties of land tile `idx`. A stream that ends before
    /// the name begins gives `Truncated`, a name that is no UTF-8
    /// `InvariantViolation`.
    pub fn read_map_tile_data(&self, idx: u32) -> (r: Result<MapTileData, MulError>)
        ensures
            map_tile_read(r, self.bytes(), idx),
    {
        let offset: u64 = self.calculate_map_tile_offset(idx);
        let len: usize = self.data.len();
        if len < 6 || offset > (len - 6) as u64 {
            return Err(MulError::Truncated);
        }
        let at: usize = offset as usize;
        let data = self.data.as_slice();
        let flags: u32 = get_u32(data, at);
        let texture_id: u16 = get_u16(data, at + 4);
        match read_name(data, at + 6) {
            Ok(name) => Ok(MapTileData { flags, texture_id, name }),
            Err(e) => Err(e),
        }
    }

    /// Reads the properties of static `idx`. A stream that ends before the
    /// name begins gives `Truncated`, a name that is no UTF-8
    /// `InvariantViolation`.
    pub fn read_static_tile_data(&self, idx: u32) -> (r: Result<StaticTileData, MulError>)
        ensures
            static_tile_read(r, self.bytes(), idx),
    {
        let offset: u64 = self.calculate_static_tile_offset(idx);
        let len: usize = self.data.len();
        if len < 17 || offset > (len - 17) as u64 {
            return Err(MulError::Truncated);
        }
        let at: usize = offset as usize;
        let data = self.data.as_slice();
        let flags: u32 = get_u32(data, at);
        let weight: u8 = data[at + 4];
        let quality: u8 = data[at + 5];
        let quantity: u8 = data[at + 9];
        let anim_id: u16 = get_u16(data, at + 10);
        let hue: u8 = data[at + 13];
        let height: u8 = data[at + 16];
        match read_name(data, at + 17) {
            Ok(name) => Ok(
                StaticTileData {
                    flags,
                    weight,
                    quality_layer_light_id: quality,
                    quantity_weapon_class_armor_class: quantity,
                    anim_id,
                    hue,
                    height_capacity: height,
                    name,
                },
            ),
            Err(e) => Err(e),
        }
    }
}

} // verus!
