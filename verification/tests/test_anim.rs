use byteorder::{LittleEndian, WriteBytesExt};
use uorustlibs::anim::{read_frame, AnimFrame, AnimGroup, AnimReader, Row};
use uorustlibs::error::MulError;
use uorustlibs::mul_reader::simple_from_vecs;

// The header of a row of `n` pixels that lies `dx` right of the centre and
// `dy` below it.
fn header(dx: i32, dy: i32, n: u32) -> u32 {
    let x = (dx & 0x3FF) as u32;
    let y = (dy & 0x3FF) as u32;
    (x << 22) | (y << 12) | n
}

fn row(dx: i32, dy: i32, pixels: &[u8]) -> Row {
    Row { header: header(dx, dy, pixels.len() as u32), image_data: pixels.to_vec() }
}

#[test]
fn row_places_for_known_headers() {
    let zero = Row { header: 0, image_data: vec![] };
    assert_eq!(zero.x_offset(0), 0);
    assert_eq!(zero.y_offset(0, 0), 0);
    assert_eq!(zero.x_offset(7), 7);
    assert_eq!(zero.y_offset(-3, 10), 7);
    // The uppermost bit of each field is its sign.
    let left = Row { header: 0xFFC0_0000, image_data: vec![] };
    assert_eq!(left.x_offset(0), -1);
    assert_eq!(left.y_offset(0, 0), 0);
    let up = Row { header: 0x003F_F000, image_data: vec![] };
    assert_eq!(up.x_offset(0), 0);
    assert_eq!(up.y_offset(0, 0), -1);
    let far = Row { header: 0x8020_0000, image_data: vec![] };
    assert_eq!(far.x_offset(0), -512);
    assert_eq!(far.y_offset(0, 0), -512);
    let near = Row { header: 0x7FDF_FFFF, image_data: vec![] };
    assert_eq!(near.x_offset(0), 511);
    assert_eq!(near.y_offset(0, 0), 511);
    assert_eq!(near.x_offset(i16::MAX), 511 + 32767);
    assert_eq!(far.y_offset(i16::MIN, 0), -512 - 32768);
    assert_eq!(near.y_offset(i16::MAX, u16::MAX), 511 + 32767 + 65535);
    let mixed = Row { header: header(-20, 5, 9), image_data: vec![] };
    assert_eq!(mixed.x_offset(30), 10);
    assert_eq!(mixed.y_offset(-40, 50), 15);
}

fn frame_bytes(cx: i16, cy: i16, width: u16, height: u16, rows: &[(u32, Vec<u8>)]) -> Vec<u8> {
    let mut data = vec![];
    data.write_i16::<LittleEndian>(cx).unwrap();
    data.write_i16::<LittleEndian>(cy).unwrap();
    data.write_u16::<LittleEndian>(width).unwrap();
    data.write_u16::<LittleEndian>(height).unwrap();
    for (header, pixels) in rows {
        data.write_u32::<LittleEndian>(*header).unwrap();
        data.extend_from_slice(pixels);
    }
    data.write_u32::<LittleEndian>(0x7FFF7FFF).unwrap();
    data
}

fn group_bytes(frames: &[Vec<u8>]) -> Vec<u8> {
    let mut data = vec![];
    for i in 0..256u16 {
        data.write_u16::<LittleEndian>(i).unwrap();
    }
    data.write_u32::<LittleEndian>(frames.len() as u32).unwrap();
    let mut offset = 4 + 4 * frames.len() as u32;
    for frame in frames {
        data.write_u32::<LittleEndian>(offset).unwrap();
        offset += frame.len() as u32;
    }
    for frame in frames {
        data.extend_from_slice(frame);
    }
    data
}

#[test]
fn frame_is_read_up_to_its_end_mark() {
    let bytes = frame_bytes(-2, 3, 4, 5, &[(header(0, 0, 2), vec![7, 8]), (header(1, -1, 0), vec![])]);
    let frame = read_frame(&bytes, 0).unwrap();
    assert_eq!(frame.image_centre_x, -2);
    assert_eq!(frame.image_centre_y, 3);
    assert_eq!((frame.width, frame.height), (4, 5));
    assert_eq!(frame.data.len(), 2);
    assert_eq!(frame.data[0].header, header(0, 0, 2));
    assert_eq!(frame.data[0].image_data, vec![7, 8]);
    assert_eq!(frame.data[1].image_data, Vec::<u8>::new());
    for cut in [0, 7, 8, 11, 13, 14, 17, bytes.len() - 1] {
        assert!(matches!(read_frame(&bytes[..cut], 0), Err(MulError::Truncated)), "cut {}", cut);
    }
    assert!(matches!(read_frame(&bytes, bytes.len() + 1), Err(MulError::Truncated)));
}

#[test]
fn group_holds_palette_and_frames() {
    let first = frame_bytes(0, 0, 1, 1, &[(header(0, -1, 1), vec![5])]);
    let second = frame_bytes(1, 2, 3, 4, &[]);
    let record = group_bytes(&[first, second]);
    let group = AnimGroup::decode(&record).unwrap();
    assert_eq!(group.frame_count, 2);
    assert_eq!(group.palette[0], 0);
    assert_eq!(group.palette[255], 255);
    assert_eq!(group.frames.len(), 2);
    assert_eq!(group.frames[0].data[0].image_data, vec![5]);
    assert_eq!((group.frames[1].image_centre_x, group.frames[1].image_centre_y), (1, 2));
    assert_eq!((group.frames[1].width, group.frames[1].height), (3, 4));
    assert!(group.frames[1].data.is_empty());

    assert!(matches!(AnimGroup::decode(&record[..515]), Err(MulError::Truncated)));
    assert!(matches!(AnimGroup::decode(&record[..520]), Err(MulError::Truncated)));
    assert!(matches!(AnimGroup::decode(&record[..record.len() - 1]), Err(MulError::Truncated)));

    let reader = AnimReader::from_mul(simple_from_vecs(vec![record], 0, 0));
    assert_eq!(reader.read(0).unwrap().frames.len(), 2);
    assert!(matches!(reader.read(1), Err(MulError::Truncated)));
}

fn palette() -> [u16; 256] {
    let mut palette = [0u16; 256];
    palette[1] = 0x7C00;
    palette[2] = 0x03E0;
    palette[3] = 0x001F;
    palette
}

#[test]
fn frame_is_drawn_row_by_row() {
    // The line of a row is its place plus the centre plus the height.
    let frame = AnimFrame {
        image_centre_x: 1,
        image_centre_y: 0,
        width: 4,
        height: 2,
        data: vec![row(0, -2, &[1, 2]), row(-1, -1, &[3, 3, 3, 3]), row(1, -1, &[0])],
    };
    let image = frame.to_image(&palette()).unwrap();
    assert_eq!((image.width(), image.height()), (4, 2));
    let nothing = Some((0, 0, 0, 0));
    assert_eq!(image.get_pixel(0, 0), nothing);
    assert_eq!(image.get_pixel(1, 0), Some((255, 0, 0, 255)));
    assert_eq!(image.get_pixel(2, 0), Some((0, 255, 0, 255)));
    assert_eq!(image.get_pixel(3, 0), nothing);
    assert_eq!(image.get_pixel(0, 1), Some((0, 0, 255, 255)));
    assert_eq!(image.get_pixel(1, 1), Some((0, 0, 255, 255)));
    // The last row is drawn over the one before it.
    assert_eq!(image.get_pixel(2, 1), Some((0, 0, 0, 255)));
    assert_eq!(image.get_pixel(3, 1), Some((0, 0, 255, 255)));
}

#[test]
fn frame_without_area_is_unsupported() {
    for (width, height) in [(0u16, 0u16), (0, 5), (5, 0)] {
        let frame = AnimFrame { image_centre_x: 0, image_centre_y: 0, width, height, data: vec![] };
        assert!(matches!(frame.to_image(&palette()), Err(MulError::UnsupportedFrame)));
    }
}

#[test]
fn frame_with_row_outside_is_refused() {
    for outside in [row(3, -1, &[1, 1]), row(-1, -1, &[1]), row(0, 0, &[1]), row(0, -3, &[1])] {
        let frame = AnimFrame {
            image_centre_x: 0,
            image_centre_y: 0,
            width: 4,
            height: 2,
            data: vec![row(0, -1, &[1]), outside],
        };
        assert!(matches!(frame.to_image(&palette()), Err(MulError::InvariantViolation)));
    }
    let frame = AnimFrame {
        image_centre_x: 0,
        image_centre_y: 0,
        width: 4,
        height: 2,
        data: vec![row(2, -1, &[1, 1]), row(100, 100, &[])],
    };
    assert!(frame.to_image(&palette()).is_ok());
}
