use liminal_maze::texture::Texture;

fn png(width: u32, height: u32, rgba: Vec<u8>) -> Vec<u8> {
    let img = image::RgbaImage::from_raw(width, height, rgba).unwrap();
    let mut bytes = Vec::new();
    img.write_to(&mut std::io::Cursor::new(&mut bytes), image::ImageFormat::Png).unwrap();
    bytes
}

#[test]
fn decodes_a_png() {
    let t = Texture::new(&png(2, 1, vec![1, 2, 3, 4, 5, 6, 7, 8]), "png").unwrap();
    assert_eq!(t.width(), 2);
    assert_eq!(t.height(), 1);
}

#[test]
fn texels_are_packed_argb() {
    let t = Texture::new(&png(2, 2, vec![1, 2, 3, 4, 5, 6, 7, 8, 9, 10, 11, 12, 13, 14, 15, 16]), "png").unwrap();
    assert_eq!(t.get_pixel(0, 0), 0x04010203);
    assert_eq!(t.get_pixel(1, 0), 0x08050607);
    assert_eq!(t.get_pixel(0, 1), 0x0C090A0B);
    assert_eq!(t.get_pixel(1, 1), 0x100D0E0F);
}

#[test]
fn texels_outside_are_zero() {
    let t = Texture::new(&png(2, 1, vec![255; 8]), "png").unwrap();
    assert_eq!(t.get_pixel(2, 0), 0);
    assert_eq!(t.get_pixel(0, 1), 0);
    assert_eq!(t.get_pixel(u32::MAX, u32::MAX), 0);
}

#[test]
fn rejects_bytes_that_are_no_image() {
    assert!(Texture::new(b"not an image at all", "png").is_none());
    assert!(Texture::new(&[], "png").is_none());
}

#[test]
fn the_extension_picks_the_format() {
    let bytes = png(1, 1, vec![1, 2, 3, 4]);
    assert_eq!(Texture::new(&bytes, "PNG").unwrap().get_pixel(0, 0), 0x04010203);
    // PNG bytes under a JPEG name do not decode
    assert!(Texture::new(&bytes, "jpeg").is_none());
    // an unknown or missing extension names no format
    assert!(Texture::new(&bytes, "txt").is_none());
    assert!(Texture::new(&bytes, "").is_none());
}

#[test]
fn from_rgba_checks_the_byte_count() {
    let t = Texture::from_rgba(2, 1, vec![1, 2, 3, 4, 5, 6, 7, 8]).unwrap();
    assert_eq!(t.get_pixel(1, 0), 0x08050607);
    assert!(Texture::from_rgba(2, 1, vec![1, 2, 3, 4, 5, 6, 7]).is_none());
    assert!(Texture::from_rgba(0, 5, vec![]).is_some());
    let big = Texture::from_rgba(1, 1, vec![1, 2, 3, 4, 9, 9]).unwrap();
    assert_eq!(big.get_pixel(0, 0), 0x04010203);
}
