use uorustlibs::art::ArtReader;
use uorustlibs::art_and_data::ArtAndDataReader;
use uorustlibs::error::MulError;
use uorustlibs::mul_reader::simple_from_vecs;
use uorustlibs::tiledata::{Flags, TileDataReader};

#[test]
fn flags_are_single_bits() {
    assert_eq!(Flags::BackgroundFlag.bits(), 0x00000001);
    assert_eq!(Flags::WeaponFlag.bits(), 0x00000002);
    assert_eq!(Flags::ImpassableFlag.bits(), 0x00000040);
    assert_eq!(Flags::UnknownFlag.bits(), 0x00000100);
    assert_eq!(Flags::PrefixAnFlag.bits(), 0x00008000);
    assert_eq!(Flags::InternalFlag.bits(), 0x00010000);
    assert_eq!(Flags::Unknown2Flag.bits(), 0x04000000);
    assert_eq!(Flags::StairBackFlag.bits(), 0x40000000);
    assert_eq!(Flags::StairRightFlag.bits(), 0x80000000);
}

#[test]
fn tile_offsets_count_group_headers() {
    let reader = TileDataReader::new(vec![]);
    assert_eq!(reader.calculate_map_tile_offset(0), 4);
    assert_eq!(reader.calculate_map_tile_offset(31), 4 + 31 * 26);
    assert_eq!(reader.calculate_map_tile_offset(32), 8 + 32 * 26);
    assert_eq!(reader.calculate_map_tile_offset(u32::MAX), 4294967295 * 26 + 134217728 * 4);
    assert_eq!(reader.calculate_static_tile_offset(0), 428032 + 4);
    assert_eq!(reader.calculate_static_tile_offset(33), 428032 + 8 + 33 * 37);
}

#[test]
fn land_tile_properties() {
    let mut data = vec![0u8; 4];
    data.extend_from_slice(&[0x40, 0, 0, 0x80, 0x34, 0x12]);
    data.extend_from_slice(b"grass\0junk");
    let reader = TileDataReader::new(data.clone());
    let tile = reader.read_map_tile_data(0).unwrap();
    assert_eq!(tile.flags, 0x80000040);
    assert_eq!(tile.texture_id, 0x1234);
    assert_eq!(tile.name, "grass");
    assert!(matches!(reader.read_map_tile_data(1), Err(MulError::Truncated)));
    // A name may end with the stream.
    let reader = TileDataReader::new(data[..13].to_vec());
    assert_eq!(reader.read_map_tile_data(0).unwrap().name, "gra");
    let reader = TileDataReader::new(data[..10].to_vec());
    assert_eq!(reader.read_map_tile_data(0).unwrap().name, "");
    let reader = TileDataReader::new(data[..9].to_vec());
    assert!(matches!(reader.read_map_tile_data(0), Err(MulError::Truncated)));
    data[10] = 0xFF;
    let reader = TileDataReader::new(data);
    assert!(matches!(reader.read_map_tile_data(0), Err(MulError::InvariantViolation)));
}

#[test]
fn static_properties() {
    let mut data = vec![0u8; 428032 + 4];
    data.extend_from_slice(&[1, 2, 3, 4, 5, 6, 0xAA, 0xAA, 0xAA, 7, 0x08, 0x09, 0xAA, 10, 0xAA, 0xAA, 11]);
    data.extend_from_slice(b"chair\0");
    let reader = TileDataReader::new(data);
    let tile = reader.read_static_tile_data(0).unwrap();
    assert_eq!(tile.flags, 0x04030201);
    assert_eq!(tile.weight, 5);
    assert_eq!(tile.quality_layer_light_id, 6);
    assert_eq!(tile.quantity_weapon_class_armor_class, 7);
    assert_eq!(tile.anim_id, 0x0908);
    assert_eq!(tile.hue, 10);
    assert_eq!(tile.height_capacity, 11);
    assert_eq!(tile.name, "chair");
    assert!(matches!(reader.read_static_tile_data(1), Err(MulError::Truncated)));
}

#[test]
fn art_and_properties_are_read_together() {
    let mut tile = vec![0u8; 4];
    tile.extend_from_slice(&[0xFF; 2044]);
    let art = ArtReader::from_mul(simple_from_vecs(vec![tile], 0, 0));
    let mut data = vec![0u8; 4];
    data.extend_from_slice(&[1, 0, 0, 0, 2, 0]);
    data.extend_from_slice(b"dirt\0");
    let reader = ArtAndDataReader::new(art, TileDataReader::new(data));
    let (tile, properties) = reader.read_tile(0);
    assert_eq!(tile.unwrap().image_data[0], 0xFFFF);
    assert_eq!(properties.unwrap().name, "dirt");
    let (tile, properties) = reader.read_tile(1);
    assert!(matches!(tile, Err(MulError::Truncated)));
    assert!(matches!(properties, Err(MulError::Truncated)));
    let (art, properties) = reader.read_static(0);
    assert!(matches!(art, Err(MulError::Truncated)));
    assert!(matches!(properties, Err(MulError::Truncated)));
}
