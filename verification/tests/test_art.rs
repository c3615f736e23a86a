use std::io::Cursor;

use byteorder::{LittleEndian, WriteBytesExt};

use uorustlibs::art::{Art, ArtReader, RunPair, Static, Tile, TileOrStatic, STATIC_OFFSET};
use uorustlibs::error::MulError;
use uorustlibs::mul_reader::simple_from_vecs;

#[test]
fn test_load_tile() {
    let mut data = Cursor::new(vec![]);
    data.write_u32::<LittleEndian>(0).unwrap(); // Header
    for _i in 0..1022 {
        data.write_u16::<LittleEndian>(0xFFFF).unwrap();
    }

    let mul_reader = simple_from_vecs(vec![data.into_inner()], 0, 0);
    let reader = ArtReader::from_mul(mul_reader);
    match reader.read(0) {
        Ok(TileOrStatic::Tile(tile)) => {
            assert_eq!(tile.header, 0);
            assert_eq!(tile.image_data[0], 0xFFFF);
        }
        Ok(_) => {
            panic!("Got Static instead of Tile");
        }
        Err(err) => panic!("{:?}", err),
    };
}

#[test]
fn test_tile_to_image() {
    let tile = Tile { header: 0, image_data: [0xFFFF; 1022] };
    let image = tile.to_image();
    assert_eq!(image.width(), 44);
    assert_eq!(image.height(), 44);

    // Check the first row
    for i in 0..44 {
        if i == 21 || i == 22 {
            assert_eq!(image.get_pixel(i, 0), Some((0xFF, 0xFF, 0xFF, 0xFF)));
        } else {
            assert_eq!(image.get_pixel(i, 0), Some((0, 0, 0, 0)));
        }
    }

    // Check the middle row
    for i in 0..44 {
        assert_eq!(image.get_pixel(i, 22), Some((0xFF, 0xFF, 0xFF, 0xFF)));
    }
}

fn example_static_record() -> Vec<u8> {
    let mut data = Cursor::new(vec![]);

    data.write_u16::<LittleEndian>(0).unwrap(); //Size, unused
    data.write_u16::<LittleEndian>(1).unwrap(); //Trigger, unknown
    data.write_u16::<LittleEndian>(3).unwrap(); //Width in pixels
    data.write_u16::<LittleEndian>(3).unwrap(); //Height in pixels

    data.write_u16::<LittleEndian>(0).unwrap(); //Row 1 offset
    data.write_u16::<LittleEndian>(5).unwrap(); //Row 2 offset
    data.write_u16::<LittleEndian>(12).unwrap(); //Row 3 offset

    data.write_u16::<LittleEndian>(1).unwrap(); //Row 1, run 1 spacer
    data.write_u16::<LittleEndian>(1).unwrap(); //Row 1, run 1 number of pixels
    data.write_u16::<LittleEndian>(0xFFFF).unwrap(); //Row 1, run 1 data
    data.write_u32::<LittleEndian>(0).unwrap(); //Row 1 EOL

    data.write_u16::<LittleEndian>(0).unwrap(); //Row 2, run 1 spacer
    data.write_u16::<LittleEndian>(3).unwrap(); //Row 2, run 1 number of pixels
    data.write_u16::<LittleEndian>(0xFFFF).unwrap(); //Row 2, run 1 data
    data.write_u16::<LittleEndian>(0xFFFF).unwrap(); //Row 2, run 1 data
    data.write_u16::<LittleEndian>(0xFFFF).unwrap(); //Row 2, run 1 data
    data.write_u32::<LittleEndian>(0).unwrap(); //Row 2 EOL

    data.write_u16::<LittleEndian>(1).unwrap(); //Row 1, run 1 spacer
    data.write_u16::<LittleEndian>(1).unwrap(); //Row 1, run 1 number of pixels
    data.write_u16::<LittleEndian>(0xFFFF).unwrap(); //Row 1, run 1 data
    data.write_u32::<LittleEndian>(0).unwrap(); //Row 2 EOL

    data.into_inner()
}

fn example_art_mul() -> ArtReader {
    let mut padded = vec![];
    for _i in 0..STATIC_OFFSET {
        padded.push(vec![]);
    }
    padded.push(example_static_record());

    let mul_reader = simple_from_vecs(padded, 0, 0);
    ArtReader::from_mul(mul_reader)
}

#[test]
fn test_load_static() {
    let reader = example_art_mul();
    match reader.read(STATIC_OFFSET) {
        Ok(TileOrStatic::Static(stat)) => {
            assert_eq!(stat.size, 0);
            assert_eq!(stat.trigger, 1);
            assert_eq!(stat.width, 3);
            assert_eq!(stat.height, 3);
        }
        Ok(_) => {
            panic!("Got Tile instead of Static");
        }
        Err(err) => panic!("{:?}", err),
    };
}

#[test]
fn test_static_to_image() {
    let reader = example_art_mul();
    match reader.read(STATIC_OFFSET) {
        Ok(TileOrStatic::Static(stat)) => {
            let image = stat.to_image();
            assert_eq!(image.width(), 3);
            assert_eq!(image.height(), 3);
            let transparent = Some((0, 0, 0, 0));
            let white = Some((255, 255, 255, 255));
            assert_eq!(image.get_pixel(0, 0), transparent);
            assert_eq!(image.get_pixel(1, 0), white);
            assert_eq!(image.get_pixel(2, 0), transparent);

            assert_eq!(image.get_pixel(0, 1), white);
            assert_eq!(image.get_pixel(1, 1), white);
            assert_eq!(image.get_pixel(2, 1), white);

            assert_eq!(image.get_pixel(0, 2), transparent);
            assert_eq!(image.get_pixel(1, 2), white);
            assert_eq!(image.get_pixel(2, 2), transparent);
        }
        Ok(_) => {
            panic!("Got Tile instead of Static");
        }
        Err(err) => panic!("{:?}", err),
    };
}

fn numbered_tile_record() -> Vec<u8> {
    let mut data = vec![];
    data.write_u32::<LittleEndian>(0xCAFEF00D).unwrap();
    for i in 0..1022u16 {
        data.write_u16::<LittleEndian>(i * 31 + 7).unwrap();
    }
    data
}

#[test]
fn tile_record_round_trips() {
    let record = numbered_tile_record();
    assert_eq!(record.len(), 2048);
    let tile = Tile::decode(&record).unwrap();
    assert_eq!(tile.header, 0xCAFEF00D);
    assert_eq!(tile.image_data[0], 7);
    assert_eq!(tile.image_data[1021], 1021 * 31 + 7);
    assert_eq!(tile.serialize(), record);
    let again = Tile::decode(&tile.serialize()).unwrap();
    assert_eq!(again.header, tile.header);
    assert_eq!(again.image_data.to_vec(), tile.image_data.to_vec());
}

#[test]
fn tile_record_of_another_size_is_refused() {
    let mut record = numbered_tile_record();
    record.push(0);
    assert!(matches!(Tile::decode(&record), Err(MulError::InvariantViolation)));
    record.truncate(2047);
    assert!(matches!(Tile::decode(&record), Err(MulError::InvariantViolation)));
    assert!(matches!(Tile::decode(&[]), Err(MulError::InvariantViolation)));
}

#[test]
fn diamond_has_1012_places() {
    let tile = Tile { header: 0, image_data: [0x7FFF; 1022] };
    let image = tile.to_image();
    let mut drawn = 0;
    for y in 0..44u32 {
        let len = if y < 22 { (y + 1) * 2 } else { (44 - y) * 2 };
        let indent = 22 - len / 2;
        for x in 0..44u32 {
            let inside = indent <= x && x < indent + len;
            let px = image.get_pixel(x, y).unwrap();
            assert_eq!(px != (0, 0, 0, 0), inside, "at {} {}", x, y);
            if inside {
                drawn += 1;
            }
        }
    }
    assert_eq!(drawn, 1012);
    assert_eq!(image.get_pixel(44, 0), None);
    assert_eq!(image.get_pixel(0, 44), None);
}

#[test]
fn diamond_takes_pixels_in_row_major_order() {
    let mut pixels = [0u16; 1022];
    // Blue counts the place within the first rows.
    for i in 0..1022 {
        pixels[i] = (i % 32) as u16;
    }
    let tile = Tile { header: 0, image_data: pixels };
    let image = tile.to_image();
    // Row 0 holds pixels 0 and 1, row 1 pixels 2 to 5.
    assert_eq!(image.get_pixel(21, 0), Some((0, 0, 0, 255)));
    assert_eq!(image.get_pixel(22, 0), Some((0, 0, 8, 255)));
    assert_eq!(image.get_pixel(20, 1), Some((0, 0, 16, 255)));
    assert_eq!(image.get_pixel(23, 1), Some((0, 0, 41, 255)));
    // Row 22 starts at pixel 506, row 43 holds pixels 1010 and 1011.
    assert_eq!(image.get_pixel(0, 22), Some((0, 0, 213, 255)));
    assert_eq!(image.get_pixel(21, 43), Some((0, 0, 148, 255)));
    assert_eq!(image.get_pixel(22, 43), Some((0, 0, 156, 255)));
}

#[test]
fn static_record_round_trips() {
    let record = example_static_record();
    let art = Static::decode(&record).unwrap();
    assert_eq!(art.rows.len(), 3);
    assert_eq!(art.rows[0].len(), 1);
    assert_eq!(art.rows[0][0].offset, 1);
    assert_eq!(art.rows[0][0].run, vec![0xFFFF]);
    assert_eq!(art.rows[1][0].offset, 0);
    assert_eq!(art.rows[1][0].run, vec![0xFFFF, 0xFFFF, 0xFFFF]);
    assert!(art.is_serializable());
    assert_eq!(art.serialize(), record);
}

#[test]
fn static_art_round_trips() {
    let art = Static {
        size: 0x1234,
        trigger: 0x5678,
        width: 5,
        height: 3,
        rows: vec![
            vec![RunPair { offset: 0, run: vec![1, 2] }, RunPair { offset: 2, run: vec![3] }],
            vec![],
            vec![RunPair { offset: 4, run: vec![] }, RunPair { offset: 0, run: vec![9] }],
        ],
    };
    assert!(art.is_drawable());
    assert!(art.is_serializable());
    let record = art.serialize();
    assert_eq!(
        record,
        vec![
            0x34, 0x12, 0x78, 0x56, 5, 0, 3, 0, // header
            0, 0, 9, 0, 11, 0, // row offsets
            0, 0, 2, 0, 1, 0, 2, 0, 2, 0, 1, 0, 3, 0, 0, 0, 0, 0, // row 0
            0, 0, 0, 0, // row 1
            4, 0, 0, 0, 0, 0, 1, 0, 9, 0, 0, 0, 0, 0, // row 2
        ]
    );
    let back = Static::decode(&record).unwrap();
    assert_eq!((back.size, back.trigger, back.width, back.height), (0x1234, 0x5678, 5, 3));
    assert_eq!(back.rows.len(), 3);
    for (row, want) in back.rows.iter().zip(art.rows.iter()) {
        assert_eq!(row.len(), want.len());
        for (pair, want_pair) in row.iter().zip(want.iter()) {
            assert_eq!(pair.offset, want_pair.offset);
            assert_eq!(pair.run, want_pair.run);
        }
    }
}

fn static_header(width: u16, height: u16) -> Vec<u8> {
    let mut data = vec![];
    data.write_u16::<LittleEndian>(0).unwrap();
    data.write_u16::<LittleEndian>(0).unwrap();
    data.write_u16::<LittleEndian>(width).unwrap();
    data.write_u16::<LittleEndian>(height).unwrap();
    data
}

#[test]
fn static_dimensions_outside_1_to_1023_are_malformed() {
    for (width, height) in [(0u16, 1u16), (1, 0), (1024, 1), (1, 1024), (0xFFFF, 0xFFFF)] {
        let mut data = static_header(width, height);
        data.extend_from_slice(&[0u8; 64]);
        assert!(
            matches!(Static::decode(&data), Err(MulError::MalformedDimensions)),
            "{} by {}",
            width,
            height
        );
    }
    let mut data = static_header(1023, 1);
    data.extend_from_slice(&[0, 0, 0, 0, 0, 0]);
    let art = Static::decode(&data).unwrap();
    assert_eq!((art.width, art.height), (1023, 1));
    assert_eq!(art.rows.len(), 1);
    assert!(art.rows[0].is_empty());
}

#[test]
fn static_row_wider_than_the_art_is_refused() {
    // One row of width 3 whose only run skips 2 places and holds 2 pixels.
    let mut data = static_header(3, 1);
    data.extend_from_slice(&[0, 0]);
    data.extend_from_slice(&[2, 0, 2, 0, 1, 0, 2, 0, 0, 0, 0, 0]);
    assert!(matches!(Static::decode(&data), Err(MulError::InvariantViolation)));
    // The same run with a skip of 1 fills the row to its end.
    data[10] = 1;
    let art = Static::decode(&data).unwrap();
    assert_eq!(art.rows[0][0].run, vec![1, 2]);
    let image = art.to_image();
    assert_eq!(image.get_pixel(0, 0), Some((0, 0, 0, 0)));
    assert_eq!(image.get_pixel(1, 0), Some((0, 0, 8, 255)));
    assert_eq!(image.get_pixel(2, 0), Some((0, 0, 16, 255)));
}

#[test]
fn static_record_that_ends_early_is_truncated() {
    let record = example_static_record();
    for len in [0, 7, 8, 13, 14, 17, 19, 23, record.len() - 1] {
        assert!(
            matches!(Static::decode(&record[..len]), Err(MulError::Truncated)),
            "cut at {}",
            len
        );
    }
}

#[test]
fn static_that_is_not_valid_is_told_apart() {
    let wide = Static {
        size: 0,
        trigger: 0,
        width: 2,
        height: 1,
        rows: vec![vec![RunPair { offset: 1, run: vec![1, 2] }]],
    };
    assert!(!wide.is_drawable());
    assert!(wide.is_serializable());
    let short = Static { size: 0, trigger: 0, width: 2, height: 2, rows: vec![vec![]] };
    assert!(!short.is_drawable());
    let fine = Static { size: 0, trigger: 0, width: 2, height: 1, rows: vec![vec![]] };
    assert!(fine.is_drawable());
    let long = Static {
        size: 0,
        trigger: 0,
        width: 2,
        height: 2,
        rows: vec![vec![RunPair { offset: 0, run: vec![0; 65534] }], vec![]],
    };
    assert!(!long.is_serializable());
    let last = Static {
        size: 0,
        trigger: 0,
        width: 2,
        height: 2,
        rows: vec![vec![], vec![RunPair { offset: 0, run: vec![0; 65535] }]],
    };
    assert!(last.is_serializable());
    let run = Static {
        size: 0,
        trigger: 0,
        width: 2,
        height: 1,
        rows: vec![vec![RunPair { offset: 0, run: vec![0; 65536] }]],
    };
    assert!(!run.is_serializable());
}

#[test]
fn reader_tells_tiles_from_statics_by_id() {
    let reader = example_art_mul();
    assert!(reader.read_static(0).is_ok());
    assert!(matches!(reader.read_tile(STATIC_OFFSET), Err(MulError::OutOfBounds)));
    // Record 0 is empty, which is no tile.
    assert!(matches!(reader.read_tile(0), Err(MulError::InvariantViolation)));
    assert!(matches!(reader.read_static(1), Err(MulError::Truncated)));
    assert!(matches!(reader.read_static(u32::MAX), Err(MulError::OutOfBounds)));
    assert!(matches!(reader.read_static(u32::MAX - 0x4000), Err(MulError::Truncated)));
}
