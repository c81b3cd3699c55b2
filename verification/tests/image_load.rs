use image_sorter::image_load::{image_kind, load_image_bytes, ImageKind};
use std::io::Cursor;

fn png_bytes(w: u32, h: u32) -> (Vec<u8>, Vec<u8>) {
    let mut img = image::RgbaImage::new(w, h);
    for (x, y, p) in img.enumerate_pixels_mut() {
        *p = image::Rgba([(x * 40) as u8, (y * 60) as u8, 200, 255]);
    }
    let mut buf = Cursor::new(Vec::new());
    image::DynamicImage::ImageRgba8(img.clone())
        .write_to(&mut buf, image::ImageFormat::Png)
        .unwrap();
    (buf.into_inner(), img.into_raw())
}

#[test]
fn image_kinds_by_extension() {
    assert_eq!(image_kind("jpg"), Some(ImageKind::Jpeg));
    assert_eq!(image_kind("jpeg"), Some(ImageKind::Jpeg));
    assert_eq!(image_kind("png"), Some(ImageKind::Png));
    assert_eq!(image_kind("PNG"), None);
    assert_eq!(image_kind("gif"), None);
    assert_eq!(image_kind(""), None);
}

#[test]
fn png_bytes_give_the_picture_and_a_thumbnail() {
    let (bytes, pixels) = png_bytes(4, 3);
    let (icon, full) = load_image_bytes("a.png", "png", &bytes).unwrap();
    assert_eq!((full.width, full.height), (4, 3));
    assert_eq!(full.rgba, pixels);
    assert!(icon.width > 0 && icon.height > 0);
    assert_eq!(icon.rgba.len() as u32, icon.width * icon.height * 4);
    // the thumbnail keeps the proportions of the picture
    assert_eq!(icon.width * 3, icon.height * 4);
}

#[test]
fn undecodable_bytes_report_the_decoder_error() {
    let bytes = b"not a picture".to_vec();
    let expected = format!(
        "{:?}",
        image::load_from_memory_with_format(&bytes, image::ImageFormat::Png).unwrap_err()
    );
    match load_image_bytes("b.png", "png", &bytes) {
        Err(e) => assert_eq!(e, expected),
        Ok(_) => panic!("garbage decoded"),
    }
}

#[test]
fn png_read_as_jpeg_fails() {
    let (bytes, _) = png_bytes(2, 2);
    assert!(load_image_bytes("c.jpg", "jpg", &bytes).is_err());
}
