use uorustlibs::error::MulError;
use uorustlibs::hues::{Hue, HueGroup, HueReader};

fn make_color_table(color: u16) -> [u16; 32] {
    [color; 32]
}

#[test]
fn test_load_hues() {
    let color_table = make_color_table(0);
    let hue = Hue::new(color_table, 1, 2, "Hoojama".to_string());
    let group = HueGroup::new(
        5,
        [
            hue.clone(),
            hue.clone(),
            hue.clone(),
            hue.clone(),
            hue.clone(),
            hue.clone(),
            hue.clone(),
            hue.clone(),
        ],
    );

    let mut serialized: Vec<u8> = vec![];
    serialized.extend_from_slice(&group.serialize());

    let color_table = make_color_table(1);
    let hue = Hue::new(color_table, 3, 4, "Llama".to_string());
    let group = HueGroup::new(
        6,
        [
            hue.clone(),
            hue.clone(),
            hue.clone(),
            hue.clone(),
            hue.clone(),
            hue.clone(),
            hue.clone(),
            hue.clone(),
        ],
    );

    serialized.extend_from_slice(&group.serialize());

    let reader = HueReader::from_readable(serialized);

    let first = reader.read_hue_group(0).expect("Couldn't read index 0");
    let second = reader.read_hue_group(1).expect("Couldn't read index 1");
    assert_eq!(first.header, 5);
    assert_eq!(first.entries[0].table_start, 1);
    assert_eq!(first.entries[0].table_end, 2);
    assert_eq!(first.entries[0].color_table[0], 0);
    assert_eq!(first.entries[0].name, "Hoojama".to_string());

    assert_eq!(second.header, 6);
    assert_eq!(second.entries[0].table_start, 3);
    assert_eq!(second.entries[0].table_end, 4);
    assert_eq!(second.entries[0].color_table[0], 1);
    assert_eq!(second.entries[0].name, "Llama".to_string());
}

#[test]
fn test_serialize_hue() {
    let color_table = make_color_table(0);
    let hue = Hue::new(color_table, 1, 2, "Hoojama".to_string()).serialize();
    assert_eq!(hue.len(), 64 + 2 + 2 + 20);
    assert_eq!(hue[0], 0);
    assert_eq!(hue[63], 0);

    assert_eq!(hue[64], 1);
    assert_eq!(hue[65], 0);

    assert_eq!(hue[66], 2);
    assert_eq!(hue[67], 0);

    assert_eq!(
        &hue[68..88],
        vec![
            'H' as u8, 'o' as u8, 'o' as u8, 'j' as u8, 'a' as u8, 'm' as u8, 'a' as u8, 0, 0, 0,
            0, 0, 0, 0, 0, 0, 0, 0, 0, 0
        ]
        .as_slice()
    );
}

#[test]
fn test_serialize_hue_group() {
    let color_table = make_color_table(0);
    let hue = Hue::new(color_table, 1, 2, "Hoojama".to_string());
    let group = HueGroup::new(
        5,
        [
            hue.clone(),
            hue.clone(),
            hue.clone(),
            hue.clone(),
            hue.clone(),
            hue.clone(),
            hue.clone(),
            hue.clone(),
        ],
    );

    let serialized = group.serialize();
    assert_eq!(serialized.len(), ((64 + 2 + 2 + 20) * 8) + 4);
    assert_eq!(serialized[0], 5);
    assert_eq!(serialized[4 + 64], 1);
}

#[test]
fn hue_name_of_twenty_bytes_fills_its_field() {
    let name = "abcdefghijklmnopqrst";
    let hue = Hue::new(make_color_table(0x1234), 0xAABB, 0xCCDD, name.to_string());
    assert!(hue.is_serializable());
    let bytes = hue.serialize();
    assert_eq!(bytes.len(), 88);
    assert_eq!(&bytes[0..2], &[0x34, 0x12]);
    assert_eq!(&bytes[64..68], &[0xBB, 0xAA, 0xDD, 0xCC]);
    assert_eq!(&bytes[68..88], name.as_bytes());
    let back = Hue::decode(&bytes, 0);
    assert_eq!(back.name, name);
    assert_eq!(back.color_table, make_color_table(0x1234));
    assert_eq!((back.table_start, back.table_end), (0xAABB, 0xCCDD));
    let long = Hue::new(make_color_table(0), 0, 0, "abcdefghijklmnopqrstu".to_string());
    assert!(!long.is_serializable());
}

#[test]
fn hue_name_that_is_not_ascii_reads_as_error() {
    let mut bytes = Hue::new(make_color_table(0), 0, 0, "ok".to_string()).serialize();
    assert_eq!(Hue::decode(&bytes, 0).name, "ok");
    // Two bytes of UTF-8 that are no ASCII.
    bytes[68] = 0xC3;
    bytes[69] = 0xA9;
    assert_eq!(Hue::decode(&bytes, 0).name, "Error");
    // A byte that is no UTF-8 at all.
    bytes[68] = 0xFF;
    bytes[69] = 0;
    assert_eq!(Hue::decode(&bytes, 0).name, "Error");
    // What follows the first zero byte does not count.
    bytes[68] = b'x';
    bytes[69] = 0;
    bytes[70] = 0xFF;
    assert_eq!(Hue::decode(&bytes, 0).name, "x");
    bytes[68] = 0;
    assert_eq!(Hue::decode(&bytes, 0).name, "");
}

#[test]
fn hue_group_past_the_stream_is_truncated() {
    let hue = Hue::new(make_color_table(0), 1, 2, "Hoojama".to_string());
    let group = HueGroup::new(
        5,
        [
            hue.clone(),
            hue.clone(),
            hue.clone(),
            hue.clone(),
            hue.clone(),
            hue.clone(),
            hue.clone(),
            hue.clone(),
        ],
    );
    let mut bytes = group.serialize();
    bytes.pop();
    let reader = HueReader::from_readable(bytes);
    assert!(matches!(reader.read_hue_group(0), Err(MulError::Truncated)));
    let reader = HueReader::from_readable(group.serialize());
    assert!(reader.read_hue_group(0).is_ok());
    assert!(matches!(reader.read_hue_group(1), Err(MulError::Truncated)));
    assert!(matches!(reader.read_hue_group(u32::MAX), Err(MulError::Truncated)));
}
