use byteorder::{LittleEndian, WriteBytesExt};
use uorustlibs::error::MulError;
use uorustlibs::map::{
    read_block, read_block_statics, MapDiffReader, MapReader, RadarColReader, StaticDiffReader,
    StaticLocation, StaticReader,
};
use uorustlibs::mul_reader::simple_from_vecs;

// A block whose checksum and cells tell which block it is.
fn block_bytes(mark: u8) -> Vec<u8> {
    let mut data = vec![];
    data.write_u32::<LittleEndian>(0x01020300 + mark as u32).unwrap();
    for i in 0..64u16 {
        data.write_u16::<LittleEndian>(mark as u16 * 256 + i).unwrap();
        data.push((i as u8).wrapping_sub(32));
    }
    assert_eq!(data.len(), 196);
    data
}

fn blocks(marks: &[u8]) -> Vec<u8> {
    let mut data = vec![];
    for mark in marks {
        data.extend_from_slice(&block_bytes(*mark));
    }
    data
}

fn lookup(ids: &[u32]) -> Vec<u8> {
    let mut data = vec![];
    for id in ids {
        data.write_u32::<LittleEndian>(*id).unwrap();
    }
    data
}

#[test]
fn block_is_read_by_id() {
    let data = blocks(&[10, 11, 12]);
    let block = read_block(&data, 1).unwrap();
    assert_eq!(block.checksum, 0x0102030B);
    assert_eq!(block.cells[0].graphic, 11 * 256);
    assert_eq!(block.cells[0].altitude, -32);
    assert_eq!(block.cells[32].altitude, 0);
    assert_eq!(block.cells[63].graphic, 11 * 256 + 63);
    assert_eq!(block.cells[63].altitude, 31);
    assert!(matches!(read_block(&data, 3), Err(MulError::Truncated)));
    assert!(matches!(read_block(&data[..587], 2), Err(MulError::Truncated)));
    assert!(matches!(read_block(&data, u32::MAX), Err(MulError::Truncated)));
}

#[test]
fn altitude_is_a_signed_byte() {
    let mut data = block_bytes(0);
    data[6] = 0x80;
    data[9] = 0x7F;
    data[12] = 0xFF;
    let block = read_block(&data, 0).unwrap();
    assert_eq!(block.cells[0].altitude, -128);
    assert_eq!(block.cells[1].altitude, 127);
    assert_eq!(block.cells[2].altitude, -1);
}

#[test]
fn map_block_by_coordinates() {
    let reader = MapReader::new(blocks(&[0, 1, 2, 3, 4, 5]), 2, 3);
    // Blocks stand in columns: block 4 is column 1, row 1.
    assert_eq!(reader.read_block_from_coordinates(1, 1, None).unwrap().checksum, 0x01020304);
    assert_eq!(reader.read_block_from_coordinates(0, 2, None).unwrap().checksum, 0x01020302);
    assert!(matches!(reader.read_block_from_coordinates(2, 0, None), Err(MulError::OutOfBounds)));
    assert!(matches!(reader.read_block_from_coordinates(0, 3, None), Err(MulError::OutOfBounds)));
    assert_eq!(reader.read_block(5, None).unwrap().checksum, 0x01020305);
    assert!(matches!(reader.read_block(6, None), Err(MulError::Truncated)));
    let huge = MapReader::new(vec![], u32::MAX, u32::MAX);
    assert!(matches!(
        huge.read_block_from_coordinates(70000, 70000, None),
        Err(MulError::OutOfBounds)
    ));
    assert!(matches!(huge.read_block_from_coordinates(1, 1, None), Err(MulError::OutOfBounds)));
    assert!(matches!(huge.read_block_from_coordinates(0, 1, None), Err(MulError::Truncated)));
}

#[test]
fn patched_blocks_take_the_place_of_map_blocks() {
    let reader = MapReader::new(blocks(&[0, 1, 2, 3]), 2, 2);
    // Block 2 is patched twice, and the last place of the lookup counts.
    let patch = MapDiffReader::new(&lookup(&[2, 0, 2]), blocks(&[20, 21, 22])).unwrap();
    assert_eq!(reader.read_block(2, Some(&patch)).unwrap().checksum, 0x01020316);
    assert_eq!(reader.read_block(0, Some(&patch)).unwrap().checksum, 0x01020315);
    assert_eq!(reader.read_block(1, Some(&patch)).unwrap().checksum, 0x01020301);
    assert_eq!(reader.read_block(2, None).unwrap().checksum, 0x01020302);
    assert_eq!(
        reader.read_block_from_coordinates(1, 0, Some(&patch)).unwrap().checksum,
        0x01020316
    );
    assert!(patch.read(1).is_none());
    assert_eq!(patch.read(2).unwrap().unwrap().checksum, 0x01020316);
    let all = patch.read_all();
    assert_eq!(all.len(), 2);
    assert_eq!(all[&0].as_ref().unwrap().checksum, 0x01020315);
    assert_eq!(all[&2].as_ref().unwrap().checksum, 0x01020316);
}

#[test]
fn patch_that_lacks_its_block_fails_for_that_block() {
    let reader = MapReader::new(blocks(&[0, 1]), 1, 2);
    let patch = MapDiffReader::new(&lookup(&[1, 0]), blocks(&[20])).unwrap();
    assert_eq!(reader.read_block(1, Some(&patch)).unwrap().checksum, 0x01020314);
    assert!(matches!(reader.read_block(0, Some(&patch)), Err(MulError::Truncated)));
    let all = patch.read_all();
    assert!(all[&1].is_ok());
    assert!(matches!(all[&0], Err(MulError::Truncated)));
    // A lookup stream that ends within an id holds the whole ids before it.
    let partial = MapDiffReader::new(&[7, 0, 0, 0, 9, 0], blocks(&[20])).unwrap();
    assert!(partial.read(7).is_some());
    assert!(partial.read(9).is_none());
}

fn statics_bytes(statics: &[StaticLocation]) -> Vec<u8> {
    let mut data = vec![];
    for s in statics {
        data.write_u16::<LittleEndian>(s.object_id).unwrap();
        data.push(s.x);
        data.push(s.y);
        data.push(s.altitude as u8);
        data.write_u16::<LittleEndian>(s.checksum).unwrap();
    }
    data
}

fn tree(x: u8) -> StaticLocation {
    StaticLocation { object_id: 0x0CD0, x, y: 7, altitude: -5, checksum: 0xBEEF }
}

#[test]
fn statics_of_a_block_are_read_in_order() {
    let reader = simple_from_vecs(vec![statics_bytes(&[tree(1), tree(2)]), vec![], vec![0; 8]], 0, 0);
    assert_eq!(read_block_statics(&reader, 0).unwrap(), vec![tree(1), tree(2)]);
    assert_eq!(read_block_statics(&reader, 1).unwrap(), vec![]);
    assert!(matches!(read_block_statics(&reader, 2), Err(MulError::InvariantViolation)));
    assert!(matches!(read_block_statics(&reader, 3), Err(MulError::Truncated)));
    assert_eq!(tree(1).color_idx(), 0x0CD0 + 16384);
    let last = StaticLocation { object_id: 0xBFFF, x: 0, y: 0, altitude: 0, checksum: 0 };
    assert_eq!(last.color_idx(), 0xFFFF);
}

#[test]
fn patched_statics_take_the_place_of_map_statics() {
    let base = simple_from_vecs(
        vec![statics_bytes(&[tree(0)]), statics_bytes(&[tree(1)]), statics_bytes(&[tree(2)])],
        0,
        0,
    );
    let reader = StaticReader::new(base, 3, 1);
    let diff = simple_from_vecs(vec![statics_bytes(&[tree(20), tree(21)])], 0, 0);
    let patch = StaticDiffReader::new(&lookup(&[1]), diff).unwrap();
    assert_eq!(reader.read_block(1, Some(&patch)).unwrap(), vec![tree(20), tree(21)]);
    assert_eq!(reader.read_block(1, None).unwrap(), vec![tree(1)]);
    assert_eq!(reader.read_block(2, Some(&patch)).unwrap(), vec![tree(2)]);
    assert_eq!(reader.read_block_from_coordinates(1, 0, Some(&patch)).unwrap().len(), 2);
    assert_eq!(reader.read_block_from_coordinates(2, 0, None).unwrap(), vec![tree(2)]);
    assert!(matches!(
        reader.read_block_from_coordinates(3, 0, None),
        Err(MulError::OutOfBounds)
    ));
    assert!(matches!(
        reader.read_block_from_coordinates(0, 1, Some(&patch)),
        Err(MulError::OutOfBounds)
    ));
    assert!(patch.read(0).is_none());
    let all = patch.read_all();
    assert_eq!(all.len(), 1);
    assert_eq!(all[&1].as_ref().unwrap(), &vec![tree(20), tree(21)]);
}

#[test]
fn radar_colours_are_read_one_by_one_and_all() {
    let reader = RadarColReader::new(vec![0x34, 0x12, 0xFF, 0x7F, 0x01]);
    assert_eq!(reader.read_color(0).unwrap(), 0x1234);
    assert_eq!(reader.read_color(1).unwrap(), 0x7FFF);
    assert!(matches!(reader.read_color(2), Err(MulError::Truncated)));
    assert!(matches!(reader.read_color(u32::MAX), Err(MulError::Truncated)));
    assert_eq!(reader.read_colors().unwrap(), vec![0x1234, 0x7FFF]);
    assert_eq!(RadarColReader::new(vec![]).read_colors().unwrap(), Vec::<u16>::new());
}
