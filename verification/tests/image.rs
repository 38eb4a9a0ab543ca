use mdless::mermaid::image::ImageData;
use mdless::terminal::capabilities::Capabilities;
use mdless::util::DEFAULT_CELL_PIXELS;

/// Builds a real PNG of the given size (the `image` crate encodes it).
fn png(w: u32, h: u32) -> Vec<u8> {
    let buf = image::RgbaImage::new(w, h);
    let mut out = Vec::new();
    image::DynamicImage::ImageRgba8(buf)
        .write_to(&mut std::io::Cursor::new(&mut out), image::ImageFormat::Png)
        .unwrap();
    out
}

#[test]
fn decodes_dimensions() {
    let img = ImageData::from_png(png(120, 60)).unwrap();
    assert_eq!((img.width_px, img.height_px), (120, 60));
}

#[test]
fn rejects_garbage() {
    assert!(ImageData::from_png(vec![]).is_err());
    assert!(ImageData::from_png(b"not a png".to_vec()).is_err());
    assert!(ImageData::from_png(vec![0xff; 4096]).is_err());
}

#[test]
fn cell_size_without_clamping() {
    let img = ImageData::from_png(png(80, 32)).unwrap();
    assert_eq!(img.cell_size((8, 16), 80), (10, 2));
}

#[test]
fn cell_size_rounds_up() {
    let img = ImageData::from_png(png(81, 33)).unwrap();
    assert_eq!(img.cell_size((8, 16), 80), (11, 3));
}

#[test]
fn cell_size_clamps_and_preserves_aspect() {
    let img = ImageData::from_png(png(800, 400)).unwrap();
    assert_eq!(img.cell_size((8, 16), 40), (40, 10));
}

#[test]
fn unknown_cell_size_uses_defaults() {
    let img = ImageData::from_png(png(80, 32)).unwrap();
    assert_eq!(img.cell_size((0, 0), 80), (10, 2));
}

#[test]
fn cell_size_scales_pixels_not_rounded_cells() {
    let img = ImageData::from_png(png(81, 33)).unwrap();
    assert_eq!(img.cell_size((8, 16), 4), (4, 1));
    assert_eq!(img.cell_size((8, 16), 0), (1, 1));
}

#[test]
fn unknown_cell_size_matches_the_shared_default() {
    let img = ImageData::from_png(png(80, 32)).unwrap();
    assert_eq!(img.cell_size((0, 0), 80), img.cell_size(DEFAULT_CELL_PIXELS, 80));
    assert_eq!(Capabilities::default().cell_size(), DEFAULT_CELL_PIXELS);
}

#[test]
fn never_returns_zero() {
    let img = ImageData::from_png(png(1, 1)).unwrap();
    let (c, r) = img.cell_size((100, 100), 1);
    assert!(c >= 1 && r >= 1);
    let (c, r) = img.cell_size((8, 16), 0);
    assert!(c >= 1 && r >= 1);
}
