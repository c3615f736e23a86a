use byteorder::{LittleEndian, WriteBytesExt};
use std::io::Cursor;
use uorustlibs::error::MulError;
use uorustlibs::gump::{Gump, GumpPair, GumpReader};
use uorustlibs::mul_reader::simple_from_vecs;

fn example_gump_record() -> Vec<u8> {
    let mut data = Cursor::new(vec![]);

    data.write_u32::<LittleEndian>(3).unwrap(); //Row 1 offset
    data.write_u32::<LittleEndian>(6).unwrap(); //Row 2 offset
    data.write_u32::<LittleEndian>(7).unwrap(); //Row 3 offset

    data.write_u16::<LittleEndian>(0).unwrap(); //Row 1, run 1 spacer
    data.write_u16::<LittleEndian>(1).unwrap(); //Row 1, run 1 spacer

    data.write_u16::<LittleEndian>(0xFFFF).unwrap(); //Row 1, run 1 data
    data.write_u16::<LittleEndian>(1).unwrap(); //Row 1, run 1 number of pixels

    data.write_u16::<LittleEndian>(0).unwrap(); //Row 1, run 1 spacer
    data.write_u16::<LittleEndian>(1).unwrap(); //Row 1, run 1 spacer

    data.write_u16::<LittleEndian>(0xFFFF).unwrap(); //Row 2, run 1 data
    data.write_u16::<LittleEndian>(3).unwrap(); //Row 2 EOL

    data.write_u16::<LittleEndian>(0).unwrap(); //Row 1, run 1 spacer
    data.write_u16::<LittleEndian>(1).unwrap(); //Row 1, run 1 spacer

    data.write_u16::<LittleEndian>(0xFFFF).unwrap(); //Row 1, run 1 data
    data.write_u16::<LittleEndian>(1).unwrap(); //Row 1, run 1 number of pixels

    data.write_u16::<LittleEndian>(0).unwrap(); //Row 1, run 1 spacer
    data.write_u16::<LittleEndian>(1).unwrap(); //Row 1, run 1 spacer

    data.into_inner()
}

fn example_gump_mul() -> GumpReader {
    // The two values of the index entry are the height and the width.
    let mul_reader = simple_from_vecs(vec![example_gump_record()], 3, 3);
    GumpReader::from_mul(mul_reader)
}

#[test]
fn test_gump() {
    let reader = example_gump_mul();
    match reader.read_gump(0) {
        Ok(gump) => {
            assert!(gump.is_drawable());
            let image = gump.to_image();
            assert_eq!(image.width(), 3);
            assert_eq!(image.height(), 3);
            let transparent = Some((0, 0, 0, 0));
            let white = Some((255, 255, 255, 255));
            assert_eq!(image.get_pixel(0, 0), transparent);
            assert_eq!(image.get_pixel(1, 0), white);
            assert_eq!(image.get_pixel(2, 0), transparent);

            assert_eq!(image.get_pixel(0, 1), white);
            assert_eq!(image.get_pixel(1, 1), white);
            assert_eq!(image.get_pixel(2, 1), white);

            assert_eq!(image.get_pixel(0, 2), transparent);
            assert_eq!(image.get_pixel(1, 2), white);
            assert_eq!(image.get_pixel(2, 2), transparent);
        }
        Err(err) => panic!("{:?}", err),
    };
}

#[test]
fn gump_rows_end_where_the_next_begins() {
    let gump = Gump::decode(&example_gump_record(), 3, 3).unwrap();
    assert_eq!((gump.height, gump.width), (3, 3));
    assert_eq!(gump.data.len(), 3);
    assert_eq!(
        gump.data[0],
        vec![
            GumpPair { color: 0, count: 1 },
            GumpPair { color: 0xFFFF, count: 1 },
            GumpPair { color: 0, count: 1 }
        ]
    );
    assert_eq!(gump.data[1], vec![GumpPair { color: 0xFFFF, count: 3 }]);
    assert_eq!(gump.data[2].len(), 3);
}

#[test]
fn black_run_paints_nothing_and_moves_on() {
    let red = 0x7C00;
    let gump = Gump {
        width: 6,
        height: 2,
        data: vec![
            vec![
                GumpPair { color: red, count: 1 },
                GumpPair { color: 0x0000, count: 3 },
                GumpPair { color: red, count: 2 },
            ],
            vec![GumpPair { color: 0x8000, count: 2 }, GumpPair { color: 0x0001, count: 1 }],
        ],
    };
    assert!(gump.is_drawable());
    let image = gump.to_image();
    let transparent = Some((0, 0, 0, 0));
    let opaque_red = Some((255, 0, 0, 255));
    assert_eq!(image.get_pixel(0, 0), opaque_red);
    assert_eq!(image.get_pixel(1, 0), transparent);
    assert_eq!(image.get_pixel(2, 0), transparent);
    assert_eq!(image.get_pixel(3, 0), transparent);
    assert_eq!(image.get_pixel(4, 0), opaque_red);
    assert_eq!(image.get_pixel(5, 0), opaque_red);
    // A colour with only its top bit set has no red, green or blue either.
    assert_eq!(image.get_pixel(0, 1), transparent);
    assert_eq!(image.get_pixel(1, 1), transparent);
    assert_eq!(image.get_pixel(2, 1), Some((0, 0, 8, 255)));
    assert_eq!(image.get_pixel(3, 1), transparent);
}

#[test]
fn gump_that_does_not_fit_is_not_drawable() {
    let wide = Gump { width: 2, height: 1, data: vec![vec![GumpPair { color: 1, count: 3 }]] };
    assert!(!wide.is_drawable());
    let black = Gump { width: 2, height: 1, data: vec![vec![GumpPair { color: 0, count: 3 }]] };
    assert!(!black.is_drawable());
    let rows = Gump { width: 2, height: 2, data: vec![vec![]] };
    assert!(!rows.is_drawable());
    let empty = Gump { width: 0, height: 0, data: vec![] };
    assert!(empty.is_drawable());
    let image = empty.to_image();
    assert_eq!((image.width(), image.height()), (0, 0));
}

#[test]
fn gump_offsets_that_run_backwards_are_refused() {
    let mut data = vec![];
    data.write_u32::<LittleEndian>(3).unwrap();
    data.write_u32::<LittleEndian>(2).unwrap();
    data.write_u32::<LittleEndian>(0).unwrap();
    assert!(matches!(Gump::decode(&data, 2, 1), Err(MulError::InvariantViolation)));
    // The last row ends at the end of the record, which is word 1.
    let mut data = vec![];
    data.write_u32::<LittleEndian>(5).unwrap();
    assert!(matches!(Gump::decode(&data, 1, 1), Err(MulError::InvariantViolation)));
}

#[test]
fn gump_record_that_is_too_short_is_truncated() {
    let record = example_gump_record();
    assert!(matches!(Gump::decode(&record[..8], 3, 3), Err(MulError::Truncated)));
    let mut data = vec![];
    data.write_u32::<LittleEndian>(1).unwrap();
    data.write_u32::<LittleEndian>(9).unwrap();
    assert!(matches!(Gump::decode(&data, 2, 1), Err(MulError::Truncated)));
    assert!(matches!(Gump::decode(&record[..9], 2, 3), Err(MulError::InvariantViolation)));
    let reader = example_gump_mul();
    assert!(matches!(reader.read_gump(1), Err(MulError::Truncated)));
}
