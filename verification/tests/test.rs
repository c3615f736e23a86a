use byteorder::{LittleEndian, WriteBytesExt};
use uorustlibs::art::{Art, ArtReader};
use uorustlibs::map::{StaticReader};
use uorustlibs::mul_reader::{MulReader, MulWriter, MulWriterMode};
use uorustlibs::skills::{Skill, Skills};
use uorustlibs::tiledata::{Flags, TileDataReader};

// The streams of a skills container of fifty skills, the first of them
// Alchemy.
fn skills_streams() -> (Vec<u8>, Vec<u8>) {
    let mut writer = MulWriter::new(vec![], vec![], MulWriterMode::Truncate);
    writer.append(&Skill::new(false, "Alchemy".to_string()).serialize(), None, None).unwrap();
    for i in 1..50 {
        let skill = Skill::new(i % 2 == 0, format!("Skill {}", i));
        writer.append(&skill.serialize(), None, None).unwrap();
    }
    writer.into_streams()
}

#[test]
fn test_skills() {
    let (idx, data) = skills_streams();
    let skills = Skills::new(idx, data);
    match skills.skills.get(0) {
        Some(skill) => {
            assert!(skill.name == "Alchemy");
            assert!(skill.clickable == false);
        }
        None => {
            panic!("No skill at 0");
        }
    };
    //There should be a skill at #10
    match skills.skills.get(10) {
        Some(_skill) => (),
        None => {
            panic!("No skill at 10");
        }
    };
    //There shouldn't be 100 skills
    match skills.skills.get(100) {
        Some(_skill) => {
            panic!("Skill at 100");
        }
        None => (),
    };
}

#[test]
fn test_read_all() {
    let (idx, data) = skills_streams();
    let skill_list = Skills::new(idx, data).skills;
    assert!(skill_list.len() >= 49) //49 skills in the first release of the game
}

fn absent_entry() -> Vec<u8> {
    let mut entry = vec![];
    entry.write_u32::<LittleEndian>(0xFFFFFFFF).unwrap();
    entry.write_u32::<LittleEndian>(0).unwrap();
    entry.write_u32::<LittleEndian>(0).unwrap();
    entry
}

#[test]
fn test_read_map_statics() {
    // A map of 512 rows of blocks whose only statics stand in block 200, 200.
    let block = 200 + (200 * 512);
    let mut idx = vec![];
    for _ in 0..block {
        idx.extend_from_slice(&absent_entry());
    }
    idx.write_u32::<LittleEndian>(0).unwrap();
    idx.write_u32::<LittleEndian>(14).unwrap();
    idx.write_u32::<LittleEndian>(0).unwrap();
    let data = vec![0x10, 0x00, 1, 2, 3, 0, 0, 0x20, 0x00, 4, 5, 0xFD, 0, 0];
    let static_reader = StaticReader::new(MulReader::from_readables(idx, data), 768, 512);
    match static_reader.read_block(0, None) {
        Err(_) => match static_reader.read_block(block, None) {
            Ok(statics) => {
                assert!(statics.len() > 0);
            }
            Err(_) => {
                panic!("Expected tile at 200x200 but found none");
            }
        },
        Ok(_) => {
            panic!("Found unexpected statics at 0");
        }
    }
}

// An art container with a land tile in record 100 and static art in
// record 0x4000.
fn art_reader() -> ArtReader {
    let mut tile = vec![];
    tile.write_u32::<LittleEndian>(0).unwrap();
    for i in 0..1022u16 {
        tile.write_u16::<LittleEndian>(0x0400 + i).unwrap();
    }
    let stat = vec![0, 0, 0, 0, 2, 0, 1, 0, 0, 0, 1, 0, 1, 0, 0x1F, 0, 0, 0, 0, 0];
    let mut idx = vec![];
    let mut data = vec![];
    for id in 0..0x4001u32 {
        let record: &[u8] = if id == 100 {
            &tile
        } else if id == 0x4000 {
            &stat
        } else {
            &[]
        };
        if record.is_empty() {
            idx.extend_from_slice(&absent_entry());
        } else {
            idx.write_u32::<LittleEndian>(data.len() as u32).unwrap();
            idx.write_u32::<LittleEndian>(record.len() as u32).unwrap();
            idx.write_u32::<LittleEndian>(0).unwrap();
            data.extend_from_slice(record);
        }
    }
    ArtReader::from_mul(MulReader::from_readables(idx, data))
}

#[test]
fn test_read_tile() {
    let tile_reader = art_reader();
    match tile_reader.read_tile(100) {
        Ok(tile) => {
            let bitmap = tile.to_image();
            assert!(bitmap.width() * bitmap.height() == (44 * 44));
            assert!(bitmap.get_pixel(0, 0) == Some((0, 0, 0, 0)));
            assert!(bitmap.get_pixel(21, 0) != Some((0, 0, 0, 0)));
        }
        Err(_) => {
            panic!("Couldn't read tile 100")
        }
    };
    match tile_reader.read_tile(0x4000) {
        Ok(_tile) => {
            panic!("Read static 0x4000 as tile")
        }
        Err(_) => (),
    };
}

#[test]
fn test_read_static() {
    let tile_reader = art_reader();
    match tile_reader.read_static(0) {
        Ok(static_tile) => {
            let bitmap = static_tile.to_image();
            assert!(bitmap.width() == static_tile.width as u32);
            assert!(bitmap.height() == static_tile.height as u32);
            assert!(bitmap.get_pixel(1, 0) == Some((0, 0, 255, 255)));
        }
        Err(_) => {
            panic!("Couldn't read tile 0x4000");
        }
    };
}

// A stream of tile properties: 512 groups of land tiles, and as many of
// statics, every tile with a name of its own.
fn tile_data() -> Vec<u8> {
    let mut data = vec![];
    for group in 0..512u32 {
        data.write_u32::<LittleEndian>(0).unwrap();
        for i in 0..32 {
            let idx = group * 32 + i;
            data.write_u32::<LittleEndian>(idx).unwrap();
            data.write_u16::<LittleEndian>((idx % 1000) as u16).unwrap();
            let mut name = format!("land {}", idx).into_bytes();
            name.resize(20, 0);
            data.extend_from_slice(&name);
        }
    }
    assert_eq!(data.len(), 428032);
    for group in 0..512u32 {
        data.write_u32::<LittleEndian>(0).unwrap();
        for i in 0..32 {
            let idx = group * 32 + i;
            let flags = if idx % 3 == 0 { 0x04000000 } else { 0x00000040 };
            data.write_u32::<LittleEndian>(flags).unwrap();
            data.extend_from_slice(&[1, 2, 0, 0, 0, 3]);
            data.write_u16::<LittleEndian>((idx % 500) as u16).unwrap();
            data.extend_from_slice(&[0, 4, 0, 0, 5]);
            let mut name = format!("static {}", idx).into_bytes();
            name.resize(20, 0);
            data.extend_from_slice(&name);
        }
    }
    data
}

#[test]
fn test_read_map_tile_data() {
    let tile_data_reader = TileDataReader::new(tile_data());
    let mut out = vec![];
    for idx in 0..128 {
        match tile_data_reader.read_map_tile_data(idx) {
            Ok(tile_data) => out.push(tile_data.name.clone()),
            Err(_) => {
                panic!("Couldn't read tile {}", idx)
            }
        };
    }
    assert_eq!(out.len(), 128);
    assert_eq!(out[0], "land 0");
    assert_eq!(out[127], "land 127");
}

#[test]
fn test_read_map_static_data() {
    let tile_data_reader = TileDataReader::new(tile_data());
    let mut out = vec![];
    for idx in 0..(512 * 32) {
        match tile_data_reader.read_static_tile_data(idx) {
            Ok(tile_data) => {
                if tile_data.flags & Flags::Unknown2Flag.bits() == 0 {
                    out.push(tile_data.name.clone())
                }
            }
            Err(_) => {
                panic!("Couldn't read tile {}", idx)
            }
        };
    }
    assert_eq!(out.len(), 512 * 32 - 5462);
    assert_eq!(out[0], "static 1");
}
