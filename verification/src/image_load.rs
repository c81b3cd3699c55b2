//! Turning the bytes of an image file into the picture and the thumbnail
//! that the main view shows. Reading the file is left to the caller; the
//! decoding is done by the `image` and `thumbnailer` crates.
use vstd::prelude::*;
use crate::dir::str_eq;
use std::io::Cursor;
use vstd::string::StringExecFns;

verus! {

/// A decoded picture: its size and its pixels, four bytes (red, green,
/// blue, alpha) per pixel, row after row.
pub struct PlainImage {
    pub width: u32,
    pub height: u32,
    pub rgba: Vec<u8>,
}

/// The encodings of the image files the window reads.
#[derive(Clone, Copy, Debug, PartialEq, Eq, Structural)]
pub enum ImageKind {
    Jpeg,
    Png,
}

/// Why no thumbnail could be made: the thumbnail could not be computed, it
/// could not be written as a PNG, or that PNG could not be read back.
#[derive(Clone, Copy, Debug, PartialEq, Eq, Structural)]
pub enum ThumbnailError {
    Create,
    Write,
    Reload,
}

/// The encoding named by a file extension: `jpg` and `jpeg` are JPEG,
/// `png` is PNG, and nothing else is read.
pub open spec fn image_kind_spec(ext: Seq<char>) -> Option<ImageKind> {
    if ext == seq!['j', 'p', 'g'] || ext == seq!['j', 'p', 'e', 'g'] {
        Some(ImageKind::Jpeg)
    } else if ext == seq!['p', 'n', 'g'] {
        Some(ImageKind::Png)
    } else {
        None
    }
}

/// The encoding named by `ext` (see `image_kind_spec`).
pub fn image_kind(ext: &str) -> (r: Option<ImageKind>)
    ensures
        r == image_kind_spec(ext@),
{
    let jpg = "jpg";
    let jpeg = "jpeg";
    let png = "png";
    proof {
        reveal_strlit("jpg");
        reveal_strlit("jpeg");
        reveal_strlit("png");
        assert(jpg@ =~= seq!['j', 'p', 'g']);
        assert(jpeg@ =~= seq!['j', 'p', 'e', 'g']);
        assert(png@ =~= seq!['p', 'n', 'g']);
    }
    if str_eq(ext, jpg) || str_eq(ext, jpeg) {
        Some(ImageKind::Jpeg)
    } else if str_eq(ext, png) {
        Some(ImageKind::Png)
    } else {
        None
    }
}

/// What the `image` crate makes of `bytes` read as PNG (`png`) or JPEG:
/// the width, height and RGBA pixels, or the `Debug` text of its error.
pub uninterp spec fn decoded(bytes: Seq<u8>, png: bool) -> Result<(u32, u32, Seq<u8>), Seq<char>>;

/// `image::load_from_memory_with_format` on `bytes` in the format of
/// `kind`, then `to_rgba8`. Claimed: the result is a function of the bytes
/// and the format alone (the name `decoded`); an error is handed back as
/// its `Debug` text.
#[verifier::external_body]
fn decode_image(bytes: &Vec<u8>, kind: ImageKind) -> (r: Result<PlainImage, String>)
    ensures
        match r {
            Ok(i) => decoded(bytes@, kind == ImageKind::Png) == Ok::<(u32, u32, Seq<u8>), Seq<char>>(
                (i.width, i.height, i.rgba@),
            ),
            Err(e) => decoded(bytes@, kind == ImageKind::Png) == Err::<(u32, u32, Seq<u8>), Seq<char>>(e@),
        },
{
    let format = match kind {
        ImageKind::Jpeg => image::ImageFormat::Jpeg,
        ImageKind::Png => image::ImageFormat::Png,
    };
    match image::load_from_memory_with_format(bytes.as_slice(), format) {
        Ok(img) => {
            let img = img.to_rgba8();
            Ok(PlainImage { width: img.width(), height: img.height(), rgba: img.into_raw() })
        },
        Err(e) => Err(format!("{:?}", e)),
    }
}

/// The PNG bytes of the small thumbnail that the `thumbnailer` crate makes
/// of `bytes` read as PNG (`png`) or JPEG, or why it could not.
pub uninterp spec fn thumbnail_png(bytes: Seq<u8>, png: bool) -> Result<Seq<u8>, ThumbnailError>;

/// `thumbnailer::create_thumbnails` with the size `Small` on `bytes` of the
/// MIME type of `kind`, then `Thumbnail::write_png`. Claimed: the result is
/// a function of the bytes and the type alone (the name `thumbnail_png`);
/// a failure of the first step is `Create`, of the second `Write`.
#[verifier::external_body]
fn make_thumbnail_png(bytes: &Vec<u8>, kind: ImageKind) -> (r: Result<Vec<u8>, ThumbnailError>)
    ensures
        match r {
            Ok(p) => thumbnail_png(bytes@, kind == ImageKind::Png) == Ok::<Seq<u8>, ThumbnailError>(p@),
            Err(e) => thumbnail_png(bytes@, kind == ImageKind::Png) == Err::<Seq<u8>, ThumbnailError>(e),
        },
{
    let mime_type = match kind {
        ImageKind::Jpeg => mime::IMAGE_JPEG,
        ImageKind::Png => mime::IMAGE_PNG,
    };
    let size = [thumbnailer::ThumbnailSize::Small];
    let thumb = match thumbnailer::create_thumbnails(Cursor::new(bytes.clone()), mime_type, size) {
        Ok(mut v) => v.pop(),
        Err(_) => None,
    };
    let Some(t) = thumb else { return Err(ThumbnailError::Create) };
    let mut buf = Cursor::new(Vec::new());
    match t.write_png(&mut buf) {
        Ok(()) => Ok(buf.into_inner()),
        Err(_) => Err(ThumbnailError::Write),
    }
}

/// The message of a thumbnail failure.
pub open spec fn thumbnail_message(e: ThumbnailError) -> Seq<char> {
    match e {
        ThumbnailError::Create => "缩略图生成失败"@,
        ThumbnailError::Write => "缩略图转存失败"@,
        ThumbnailError::Reload => "内存内转存缩略图为png时失败"@,
    }
}

/// How a thumbnail failure of the file `name` is reported: the name, then
/// the message in double quotes.
pub open spec fn thumbnail_error_text(name: Seq<char>, e: ThumbnailError) -> Seq<char> {
    "filename "@ + name + ", \""@ + thumbnail_message(e) + "\""@
}

fn thumbnail_error(name: &str, e: ThumbnailError) -> (r: String)
    ensures
        r@ == thumbnail_error_text(name@, e),
{
    let message = match e {
        ThumbnailError::Create => "缩略图生成失败",
        ThumbnailError::Write => "缩略图转存失败",
        ThumbnailError::Reload => "内存内转存缩略图为png时失败",
    };
    let mut r = String::from_str("filename ");
    r.append(name);
    r.append(", \"");
    r.append(message);
    r.append("\"");
    r
}

/// What reading the bytes of an image file gives: the thumbnail and the
/// full picture, or the text of the first failure (see `load_image_bytes`).
pub open spec fn loaded_images(name: Seq<char>, bytes: Seq<u8>, kind: ImageKind) -> Result<
    ((u32, u32, Seq<u8>), (u32, u32, Seq<u8>)),
    Seq<char>,
> {
    let png = kind == ImageKind::Png;
    match decoded(bytes, png) {
        Err(e) => Err(e),
        Ok(full) => match thumbnail_png(bytes, png) {
            Err(t) => Err(thumbnail_error_text(name, t)),
            Ok(p) => match decoded(p, true) {
                Err(_) => Err(thumbnail_error_text(name, ThumbnailError::Reload)),
                Ok(icon) => Ok((icon, full)),
            },
        },
    }
}

/// The images of the file `name` from its bytes: the whole picture is
/// decoded first (its error text is handed back as it is), then the small
/// thumbnail is made, written as PNG and read back (a failure there names
/// the file). The result is the thumbnail, then the whole picture.
pub fn load_image_bytes(name: &str, ext: &str, bytes: &Vec<u8>) -> (r: Result<(PlainImage, PlainImage), String>)
    requires
        image_kind_spec(ext@) is Some,
    ensures
        match (r, loaded_images(name@, bytes@, image_kind_spec(ext@)->0)) {
            (Ok((icon, full)), Ok((i, f))) => (icon.width, icon.height, icon.rgba@) == i && (
            full.width, full.height, full.rgba@) == f,
            (Err(e), Err(t)) => e@ == t,
            _ => false,
        },
{
    let kind = match image_kind(ext) {
        Some(k) => k,
        None => ImageKind::Jpeg,
    };
    let full = match decode_image(bytes, kind) {
        Ok(f) => f,
        Err(e) => return Err(e),
    };
    let png = match make_thumbnail_png(bytes, kind) {
        Ok(p) => p,
        Err(t) => return Err(thumbnail_error(name, t)),
    };
    let icon = match decode_image(&png, ImageKind::Png) {
        Ok(i) => i,
        Err(_) => return Err(thumbnail_error(name, ThumbnailError::Reload)),
    };
    Ok((icon, full))
}

} // verus!
