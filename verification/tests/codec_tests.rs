use pngedit::{image_from_parts, DecodedParts, Image, ImgError, Rgb};

fn parts(width: u32, height: u32, depth: u8, pixels: Vec<u8>) -> DecodedParts {
    DecodedParts {
        width,
        height,
        depth,
        indexed: true,
        pixels,
        palette: Some(vec![10, 20, 30, 40, 50, 60]),
        trns: vec![128],
    }
}

#[test]
fn encode_decode_round_trip() {
    let mut img = Image::new(5, 3);
    img.set_color(0, Rgb { r: 1, g: 2, b: 3 });
    img.set_color(1, Rgb { r: 4, g: 5, b: 6 });
    img.push_color(Rgb { r: 7, g: 8, b: 9 });
    img.set_pixel((4, 2), 2);
    img.set_pixel((0, 1), 1);
    img.set_transparency(2, 33);
    let bytes = img.encode();
    let back = Image::from_png_bytes(&bytes).unwrap();
    assert_eq!(back.width(), img.width());
    assert_eq!(back.height(), img.height());
    assert_eq!(back.palette(), img.palette());
    assert_eq!(back.trns(), img.trns());
    assert_eq!(back.image(), img.image());
}

#[test]
fn encode_twice_identical() {
    let mut img = Image::new(4, 4);
    img.set_pixel((3, 3), 1);
    assert_eq!(img.encode(), img.encode());
}

#[test]
fn decode_garbage_fails() {
    let bytes: Vec<u8> = vec![1, 2, 3, 4, 5, 6, 7, 8, 9];
    let r = Image::from_png_bytes(&bytes);
    assert!(matches!(r, Err(ImgError::Decode(_))));
}

#[test]
fn decode_non_indexed_rejected() {
    // A 2x2 grayscale PNG, written with the png crate directly.
    let mut bytes: Vec<u8> = Vec::new();
    let mut enc = png::Encoder::new(&mut bytes, 2, 2);
    enc.set_color(png::ColorType::Grayscale);
    enc.set_depth(png::BitDepth::Eight);
    let mut w = enc.write_header().unwrap();
    w.write_image_data(&[0, 64, 128, 255]).unwrap();
    w.finish().unwrap();
    let r = Image::from_png_bytes(&bytes);
    assert!(matches!(r, Err(ImgError::NotIndexed)));
}

#[test]
fn decode_packed_depth_2() {
    // A 4x1 indexed PNG at depth 2, one packed byte: samples 0,1,2,3.
    let mut bytes: Vec<u8> = Vec::new();
    let mut enc = png::Encoder::new(&mut bytes, 4, 1);
    enc.set_color(png::ColorType::Indexed);
    enc.set_depth(png::BitDepth::Two);
    enc.set_palette(vec![0u8, 0, 0, 10, 10, 10, 20, 20, 20, 30, 30, 30]);
    let mut w = enc.write_header().unwrap();
    w.write_image_data(&[0b0001_1011]).unwrap();
    w.finish().unwrap();
    let img = Image::from_png_bytes(&bytes).unwrap();
    assert_eq!(img.image(), &vec![0, 1, 2, 3]);
    assert_eq!(img.palette().len(), 4);
    assert_eq!(img.palette()[3], Rgb { r: 30, g: 30, b: 30 });
}

#[test]
fn parts_ok_builds_image() {
    let img = image_from_parts(parts(2, 1, 8, vec![0, 1])).unwrap();
    assert_eq!(img.width(), 2);
    assert_eq!(img.height(), 1);
    assert_eq!(img.palette(), &vec![
        Rgb { r: 10, g: 20, b: 30 },
        Rgb { r: 40, g: 50, b: 60 },
    ]);
    assert_eq!(img.trns(), &vec![128]);
}

#[test]
fn parts_not_indexed_rejected() {
    let mut p = parts(2, 1, 8, vec![0, 1]);
    p.indexed = false;
    assert!(matches!(image_from_parts(p), Err(ImgError::NotIndexed)));
}

#[test]
fn parts_depth_16_rejected() {
    let p = parts(2, 1, 16, vec![0, 0, 0, 1]);
    assert!(matches!(image_from_parts(p), Err(ImgError::UnsupportedDepth)));
}

#[test]
fn parts_zero_dimension_rejected() {
    let p = parts(0, 1, 8, vec![]);
    assert!(matches!(image_from_parts(p), Err(ImgError::BadDimensions)));
}

#[test]
fn parts_oversized_palette_rejected() {
    let mut p = parts(2, 1, 8, vec![0, 1]);
    p.palette = Some(vec![0u8; 3 * 257]);
    assert!(matches!(image_from_parts(p), Err(ImgError::PaletteTooLarge)));
}

#[test]
fn parts_wrong_pixel_count_rejected() {
    let p = parts(2, 2, 8, vec![0, 1]);
    assert!(matches!(image_from_parts(p), Err(ImgError::WrongPixelCount)));
}

#[test]
fn parts_long_transparency_rejected() {
    let mut p = parts(2, 1, 8, vec![0, 1]);
    p.trns = vec![1, 2, 3];
    assert!(matches!(image_from_parts(p), Err(ImgError::TransparencyTooLong)));
}

#[test]
fn parts_index_out_of_range_rejected() {
    let p = parts(2, 1, 8, vec![0, 2]);
    assert!(matches!(image_from_parts(p), Err(ImgError::IndexOutOfRange)));
}

#[test]
fn parts_missing_palette_defaults() {
    let mut p = parts(2, 1, 8, vec![0, 1]);
    p.palette = None;
    p.trns = vec![];
    let img = image_from_parts(p).unwrap();
    assert_eq!(img.palette(), &vec![Rgb { r: 0, g: 0, b: 0 }, Rgb { r: 0, g: 0, b: 0 }]);
}
