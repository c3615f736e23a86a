use uorustlibs::error::MulError;
use uorustlibs::mul_reader::simple_from_vecs;
use uorustlibs::texmaps::{TexMap, TexMapsReader};

#[test]
fn texture_of_64_by_64() {
    let mut data = vec![0x7C00u16; 64 * 64];
    data[65] = 0x001F;
    let tex = TexMap { data };
    assert!(tex.is_drawable());
    let image = tex.to_image();
    assert_eq!((image.width(), image.height()), (64, 64));
    assert_eq!(image.get_pixel(0, 0), Some((255, 0, 0, 255)));
    assert_eq!(image.get_pixel(1, 1), Some((0, 0, 255, 255)));
    assert_eq!(image.get_pixel(63, 63), Some((255, 0, 0, 255)));
}

#[test]
fn texture_of_128_by_128() {
    let mut data = vec![0x03E0u16; 128 * 128];
    data[128 * 2 + 5] = 0x7FFF;
    let tex = TexMap { data };
    assert!(tex.is_drawable());
    let image = tex.to_image();
    assert_eq!((image.width(), image.height()), (128, 128));
    assert_eq!(image.get_pixel(5, 2), Some((255, 255, 255, 255)));
    assert_eq!(image.get_pixel(127, 127), Some((0, 255, 0, 255)));
}

#[test]
fn texture_that_is_short_leaves_the_rest_empty() {
    let tex = TexMap { data: vec![0x7FFF; 65] };
    let image = tex.to_image();
    assert_eq!((image.width(), image.height()), (64, 64));
    assert_eq!(image.get_pixel(63, 0), Some((255, 255, 255, 255)));
    assert_eq!(image.get_pixel(0, 1), Some((255, 255, 255, 255)));
    assert_eq!(image.get_pixel(1, 1), Some((0, 0, 0, 0)));
    assert!(TexMap { data: vec![] }.is_drawable());
    assert!(!TexMap { data: vec![0; 64 * 64 + 1] }.is_drawable());
    assert!(!TexMap { data: vec![0; 128 * 128 - 1] }.is_drawable());
    assert!(!TexMap { data: vec![0; 128 * 128 + 1] }.is_drawable());
}

#[test]
fn texture_record_is_read_in_whole_words() {
    let reader = TexMapsReader::from_mul(simple_from_vecs(vec![vec![0x34, 0x12, 0xFF, 0x7F, 9]], 0, 0));
    assert_eq!(reader.read(0).unwrap().data, vec![0x1234, 0x7FFF]);
    assert!(matches!(reader.read(1), Err(MulError::Truncated)));
    assert_eq!(TexMap::decode(&[]).data, Vec::<u16>::new());
}
