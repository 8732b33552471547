use pngedit::{Image, Rgb};

#[test]
fn new_blank_seeding() {
    let mut img = Image::new(16, 16);
    assert_eq!(img.width(), 16);
    assert_eq!(img.height(), 16);
    assert_eq!(img.palette().len(), 2);
    assert_eq!(img.palette()[0], Rgb { r: 0, g: 0, b: 0 });
    assert_eq!(img.palette()[1], Rgb { r: 0, g: 0, b: 0 });
    assert_eq!(img.trns(), &vec![0u8]);
    assert_eq!(img.image().len(), 256);
    assert!(img.image().iter().all(|&p| p == 0));
    // Index 0 is fully transparent, so the blank canvas renders clear black.
    let rgba = img.render();
    assert_eq!(rgba.len(), 256 * 4);
    assert!(rgba.chunks(4).all(|c| c == [0, 0, 0, 0]));
}

#[test]
fn default_is_16_by_16() {
    let img = Image::default();
    assert_eq!(img.width(), 16);
    assert_eq!(img.height(), 16);
    assert_eq!(img.palette().len(), 2);
}

#[test]
fn set_pixel_writes_grid() {
    let mut img = Image::new(4, 3);
    img.set_pixel((2, 1), 1);
    assert_eq!(img.image()[1 * 4 + 2], 1);
    assert_eq!(img.image().iter().filter(|&&p| p != 0).count(), 1);
}

#[test]
fn set_color_and_push_color() {
    let mut img = Image::new(2, 2);
    img.set_color(1, Rgb { r: 10, g: 20, b: 30 });
    assert_eq!(img.palette()[1], Rgb { r: 10, g: 20, b: 30 });
    img.push_color(Rgb { r: 1, g: 2, b: 3 });
    assert_eq!(img.palette().len(), 3);
    assert_eq!(img.palette()[2], Rgb { r: 1, g: 2, b: 3 });
}

#[test]
fn palette_fills_to_256() {
    let mut img = Image::new(2, 2);
    while img.palette().len() < 256 {
        img.push_color(Rgb { r: 9, g: 9, b: 9 });
    }
    assert_eq!(img.palette().len(), 256);
}

#[test]
fn set_transparency_grows_with_opaque() {
    let mut img = Image::new(2, 2);
    for _ in 0..3 {
        img.push_color(Rgb { r: 5, g: 5, b: 5 });
    }
    // Table is [0]; writing index 3 grows it with opaque entries first.
    img.set_transparency(3, 100);
    assert_eq!(img.trns(), &vec![0, 255, 255, 100]);
}

#[test]
fn set_transparency_canonicalizes() {
    let mut img = Image::new(2, 2);
    for _ in 0..3 {
        img.push_color(Rgb { r: 5, g: 5, b: 5 });
    }
    img.set_transparency(3, 100);
    // Writing 255 at the end makes the suffix opaque; it is dropped down to
    // the first non-opaque entry.
    img.set_transparency(3, 255);
    assert_eq!(img.trns(), &vec![0]);
    // The last entry is never 255 after a transparency write.
    img.set_transparency(2, 200);
    img.set_transparency(1, 255);
    assert_eq!(img.trns(), &vec![0, 255, 200]);
}

#[test]
fn shrink_trns_drops_opaque_tail_only() {
    let mut img = Image::new(2, 2);
    img.push_color(Rgb { r: 5, g: 5, b: 5 });
    img.set_transparency(1, 7);
    assert_eq!(img.trns(), &vec![0, 7]);
    img.shrink_trns();
    assert_eq!(img.trns(), &vec![0, 7]);
}

#[test]
fn render_resolves_palette_and_transparency() {
    let mut img = Image::new(2, 1);
    img.set_color(0, Rgb { r: 200, g: 10, b: 20 });
    img.set_color(1, Rgb { r: 1, g: 2, b: 3 });
    img.set_transparency(0, 10);
    img.set_pixel((1, 0), 1);
    let rgba = img.render();
    // Pixel 0: color 0 with alpha 10; pixel 1: color 1, no table entry, opaque.
    assert_eq!(rgba, vec![200, 10, 20, 10, 1, 2, 3, 255]);
}

#[test]
fn render_twice_identical() {
    let mut img = Image::new(3, 2);
    img.set_pixel((2, 1), 1);
    img.set_color(1, Rgb { r: 50, g: 60, b: 70 });
    let a = img.render();
    let b = img.render();
    assert_eq!(a, b);
}

#[test]
fn render_reflects_mutation() {
    let mut img = Image::new(2, 2);
    let before = img.render();
    img.set_color(0, Rgb { r: 99, g: 0, b: 0 });
    let after = img.render();
    assert_ne!(before, after);
    assert_eq!(after[0], 99);
    // A pixel write shows up too.
    img.push_color(Rgb { r: 7, g: 8, b: 9 });
    img.set_pixel((0, 0), 2);
    let third = img.render();
    assert_eq!(&third[0..4], &[7, 8, 9, 255]);
}

#[test]
fn try_set_pixel_rejects_out_of_range() {
    let mut img = Image::new(2, 2);
    // Color index beyond the palette: rejected, nothing clamped or written.
    let r = img.try_set_pixel((0, 0), 2);
    assert!(matches!(r, Err(pngedit::ImgError::IndexOutOfRange)));
    assert!(img.image().iter().all(|&p| p == 0));
    // Position outside the grid: rejected too.
    let r = img.try_set_pixel((2, 0), 0);
    assert!(matches!(r, Err(pngedit::ImgError::IndexOutOfRange)));
    assert!(img.try_set_pixel((1, 1), 1).is_ok());
    assert_eq!(img.image()[3], 1);
}

#[test]
fn try_set_color_rejects_out_of_range() {
    let mut img = Image::new(2, 2);
    let before = img.palette().clone();
    let r = img.try_set_color(2, Rgb { r: 1, g: 2, b: 3 });
    assert!(matches!(r, Err(pngedit::ImgError::IndexOutOfRange)));
    assert_eq!(img.palette(), &before);
    assert!(img.try_set_color(1, Rgb { r: 1, g: 2, b: 3 }).is_ok());
    assert_eq!(img.palette()[1], Rgb { r: 1, g: 2, b: 3 });
}

#[test]
fn try_push_color_stops_at_256() {
    let mut img = Image::new(2, 2);
    while img.palette().len() < 256 {
        assert!(img.try_push_color(Rgb { r: 8, g: 8, b: 8 }).is_ok());
    }
    let r = img.try_push_color(Rgb { r: 8, g: 8, b: 8 });
    assert!(matches!(r, Err(pngedit::ImgError::PaletteTooLarge)));
    assert_eq!(img.palette().len(), 256);
}

#[test]
fn try_set_transparency_rejects_out_of_range() {
    let mut img = Image::new(2, 2);
    let r = img.try_set_transparency(2, 50);
    assert!(matches!(r, Err(pngedit::ImgError::IndexOutOfRange)));
    assert_eq!(img.trns(), &vec![0]);
    assert!(img.try_set_transparency(1, 50).is_ok());
    assert_eq!(img.trns(), &vec![0, 50]);
}
