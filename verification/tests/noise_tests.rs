use std::io::Cursor;

use doomarkable::noise::NoiseTexture;

#[test]
fn new_accepts_matching_buffer() {
    let t = NoiseTexture::new(2, 3, vec![1, 2, 3, 4, 5, 6]).unwrap();
    assert_eq!(t.width, 2);
    assert_eq!(t.height, 3);
    assert_eq!(t.samples, vec![1, 2, 3, 4, 5, 6]);
}

#[test]
fn new_rejects_bad_shape() {
    assert!(NoiseTexture::new(0, 3, vec![]).is_none());
    assert!(NoiseTexture::new(2, 0, vec![]).is_none());
    assert!(NoiseTexture::new(2, 2, vec![1, 2, 3]).is_none());
    assert!(NoiseTexture::new(2, 2, vec![1, 2, 3, 4, 5]).is_none());
}

#[test]
fn sample_is_row_major() {
    let t = NoiseTexture::new(3, 2, vec![10, 20, 30, 40, 50, 60]).unwrap();
    assert_eq!(t.sample(0, 0), 10);
    assert_eq!(t.sample(2, 0), 30);
    assert_eq!(t.sample(0, 1), 40);
    assert_eq!(t.sample(2, 1), 60);
}

#[test]
fn sample_wraps_both_axes() {
    let t = NoiseTexture::new(2, 2, vec![10, 200, 50, 150]).unwrap();
    assert_eq!(t.sample(2, 0), 10);
    assert_eq!(t.sample(3, 0), 200);
    assert_eq!(t.sample(0, 2), 10);
    assert_eq!(t.sample(2, 3), 50);
    assert_eq!(t.sample(101, 103), 150);
}

#[test]
fn decode_reads_a_gray_png() {
    let img = image::GrayImage::from_raw(2, 2, vec![10, 200, 50, 150]).unwrap();
    let mut bytes: Vec<u8> = Vec::new();
    img.write_to(&mut Cursor::new(&mut bytes), image::ImageFormat::Png).unwrap();
    let t = NoiseTexture::decode(&bytes).unwrap();
    assert_eq!(t.width, 2);
    assert_eq!(t.height, 2);
    assert_eq!(t.samples, vec![10, 200, 50, 150]);
}

#[test]
fn decode_rejects_garbage() {
    assert!(NoiseTexture::decode(&[]).is_none());
    assert!(NoiseTexture::decode(&[1, 2, 3, 4, 5, 6, 7, 8]).is_none());
    assert!(NoiseTexture::decode(b"not an image at all").is_none());
}
