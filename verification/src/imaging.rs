//! Image data: rotating an image file's contents and converting an image to
//! another format, with its metadata carried over, through the `image` and
//! `little_exif` crates.

use vstd::prelude::*;
use image::{DynamicImage, ImageEncoder, ImageFormat};
use little_exif::filetype::FileExtension;
use little_exif::metadata::Metadata;
use crate::export::{converted_name, ImageFmt};
use crate::exif::{
    exif_little_endian, exif_read, exif_write, metadata_from_bytes, set_u16_tag, tag_put_first, u16s_bytes,
    write_metadata,
};
use crate::text::{append_chars, ascii_lower, chars_of, rfind, split_on, string_from_chars};
use crate::viewer::Rotation;

verus! {

#[verifier::external_type_specification]
#[verifier::external_body]
pub struct ExImageFormat(ImageFormat);

#[verifier::external_type_specification]
#[verifier::external_body]
pub struct ExDynamicImage(DynamicImage);

/// What `image::load_from_memory` does with these bytes: `None` where it
/// does not return (its per-format decoders are not known to return on
/// every input), else the decoded image or its error's message.
pub uninterp spec fn image_load(b: Seq<u8>) -> Option<Result<DynamicImage, Seq<char>>>;

/// The error message of loading these bytes, if loading fails.
pub open spec fn load_error(b: Seq<u8>) -> Option<Seq<char>> {
    match image_load(b) {
        Some(Err(e)) => Some(e),
        _ => None,
    }
}

/// What `DynamicImage::rotate90`, `rotate180` or `rotate270` gives for an
/// image and a quarter-turn rotation.
pub uninterp spec fn image_turned(img: DynamicImage, r: Rotation) -> DynamicImage;

/// What encoding an image's RGB8 form as JPEG of a quality gives: the
/// bytes or the encoder's message.
pub uninterp spec fn jpeg_encoded(img: DynamicImage, quality: u8) -> Result<Seq<u8>, Seq<char>>;

/// What `DynamicImage::write_to` does with an image and a format: `None`
/// where it does not return (its per-format encoders are not known to
/// return on every input), else the bytes or the encoder's message.
pub uninterp spec fn format_encoded(img: DynamicImage, format: ImageFormat) -> Option<Result<Seq<u8>, Seq<char>>>;

/// The `image` crate's format for a conversion target.
pub uninterp spec fn image_format_for(f: ImageFmt) -> ImageFormat;

/// Whether a format of the `image` crate is JPEG.
pub uninterp spec fn format_is_jpeg(f: ImageFormat) -> bool;

/// Bytes or a message, with views in place of the values.
pub open spec fn bytes_result(r: Result<Vec<u8>, String>) -> Result<Seq<u8>, Seq<char>> {
    match r {
        Ok(b) => Ok(b@),
        Err(e) => Err(e@),
    }
}

/// The components of a path that `Path::components` gives as names or as
/// `..`: its `/`-separated pieces without the empty ones and the `.` ones.
pub open spec fn path_parts(p: Seq<char>) -> Seq<Seq<char>> {
    split_on(p, '/').filter(|s: Seq<char>| s.len() > 0 && s != seq!['.'])
}

/// `Path::file_name`: the last component, unless there is none or it is
/// `..`.
pub open spec fn path_file_name(p: Seq<char>) -> Option<Seq<char>> {
    let parts = path_parts(p);
    if parts.len() == 0 || parts.last() == seq!['.', '.'] {
        None
    } else {
        Some(parts.last())
    }
}

/// `Path::extension`: what follows the last `.` of the file name, unless
/// the name has no `.` or its only `.` is its first character.
pub open spec fn path_extension(p: Seq<char>) -> Option<Seq<char>> {
    match path_file_name(p) {
        None => None,
        Some(name) => {
            let i = rfind(name, '.');
            if i <= 0 {
                None
            } else {
                Some(name.subrange(i + 1, name.len() as int))
            }
        },
    }
}

/// The extensions that `ImageFormat::from_extension` knows, in lower case.
pub open spec fn image_extensions() -> Seq<Seq<char>> {
    seq![
        seq!['a', 'v', 'i', 'f'],
        seq!['j', 'p', 'g'],
        seq!['j', 'p', 'e', 'g'],
        seq!['j', 'f', 'i', 'f'],
        seq!['p', 'n', 'g'],
        seq!['a', 'p', 'n', 'g'],
        seq!['g', 'i', 'f'],
        seq!['w', 'e', 'b', 'p'],
        seq!['t', 'i', 'f'],
        seq!['t', 'i', 'f', 'f'],
        seq!['t', 'g', 'a'],
        seq!['d', 'd', 's'],
        seq!['b', 'm', 'p'],
        seq!['i', 'c', 'o'],
        seq!['h', 'd', 'r'],
        seq!['e', 'x', 'r'],
        seq!['p', 'b', 'm'],
        seq!['p', 'a', 'm'],
        seq!['p', 'p', 'm'],
        seq!['p', 'g', 'm'],
        seq!['p', 'n', 'm'],
        seq!['f', 'f'],
        seq!['q', 'o', 'i'],
    ]
}

/// The path's extension, in ASCII lower case, is one that the `image`
/// crate knows a format for.
pub open spec fn names_image_format(p: Seq<char>) -> bool {
    match path_extension(p) {
        Some(e) => image_extensions().contains(e.map_values(|c: char| ascii_lower(c))),
        None => false,
    }
}

/// `ImageFormat::from_path`: a format exactly when the path's extension,
/// in ASCII lower case, is one that `ImageFormat::from_extension` knows.
/// Not stated: which format (a value of the `image` crate that nothing
/// here looks into).
#[verifier::external_body]
fn image_format_of(path: &str) -> (r: Option<ImageFormat>)
    ensures
        r is Some <==> names_image_format(path@),
{
    match ImageFormat::from_path(path) {
        Ok(f) => Some(f),
        Err(_) => None,
    }
}

/// The `image` crate's format for a conversion target (a conversion of
/// enums): JPEG exactly for the JPEG target.
#[verifier::external_body]
fn image_format(f: ImageFmt) -> (r: ImageFormat)
    ensures
        r == image_format_for(f),
        format_is_jpeg(r) <==> f is Jpeg,
{
    match f {
        ImageFmt::Jpeg => ImageFormat::Jpeg,
        ImageFmt::Png => ImageFormat::Png,
        ImageFmt::WebP => ImageFormat::WebP,
        ImageFmt::Gif => ImageFormat::Gif,
        ImageFmt::Bmp => ImageFormat::Bmp,
        ImageFmt::Tiff => ImageFormat::Tiff,
    }
}

/// Whether a format of the `image` crate is JPEG (its `==`).
#[verifier::external_body]
fn is_jpeg(f: &ImageFormat) -> (r: bool)
    ensures
        r == format_is_jpeg(*f),
{
    *f == ImageFormat::Jpeg
}

/// `image::load_from_memory`: the image or the message that
/// [`image_load`] names for the bytes; bytes on which it does not return
/// are left out.
#[verifier::external_body]
fn decode_image(b: &[u8]) -> (r: Result<DynamicImage, String>)
    requires
        image_load(b@) is Some,
    ensures
        image_load(b@) == Some(match r {
            Ok(img) => Ok(img),
            Err(e) => Err(e@),
        }),
{
    match image::load_from_memory(b) {
        Ok(img) => Ok(img),
        Err(e) => Err(e.to_string()),
    }
}

/// `DynamicImage::rotate90`, `rotate180` or `rotate270`: the image turned
/// clockwise by the quarter turns asked for, as [`image_turned`] names it.
#[verifier::external_body]
fn rotate_image(img: &DynamicImage, r: Rotation) -> (out: DynamicImage)
    ensures
        out == image_turned(*img, r),
{
    match r {
        Rotation::Quarter => img.rotate90(),
        Rotation::Half => img.rotate180(),
        Rotation::ThreeQuarters => img.rotate270(),
    }
}

/// `JpegEncoder::new_with_quality` and `write_image` on the image's RGB8
/// form: the image as JPEG of the given quality, or the encoder's message,
/// as [`jpeg_encoded`] names them.
#[verifier::external_body]
fn encode_jpeg(img: &DynamicImage, quality: u8) -> (r: Result<Vec<u8>, String>)
    ensures
        bytes_result(r) == jpeg_encoded(*img, quality),
{
    let rgb = img.to_rgb8();
    let mut buf = std::io::Cursor::new(Vec::new());
    let enc = image::codecs::jpeg::JpegEncoder::new_with_quality(&mut buf, quality);
    match enc.write_image(rgb.as_raw(), rgb.width(), rgb.height(), image::ExtendedColorType::Rgb8) {
        Ok(()) => Ok(buf.into_inner()),
        Err(e) => Err(e.to_string()),
    }
}

/// `DynamicImage::write_to`: the image encoded in the format, or the
/// encoder's message, as [`format_encoded`] names them.
#[verifier::external_body]
fn encode_with(img: &DynamicImage, format: ImageFormat) -> (r: Result<Vec<u8>, String>)
    requires
        format_encoded(*img, format) is Some,
    ensures
        format_encoded(*img, format) == Some(bytes_result(r)),
{
    let mut buf = std::io::Cursor::new(Vec::new());
    match img.write_to(&mut buf, format) {
        Ok(()) => Ok(buf.into_inner()),
        Err(e) => Err(e.to_string()),
    }
}

/// What encoding an image in a format gives: JPEG at quality 92 from its
/// RGB form, other formats by the `image` crate's encoder (a failure there
/// is reported as a format that cannot be encoded).
pub open spec fn encoding_of(img: DynamicImage, format: ImageFormat) -> Result<Seq<u8>, Seq<char>> {
    if format_is_jpeg(format) {
        jpeg_encoded(img, 92)
    } else {
        match format_encoded(img, format) {
            Some(Ok(b)) => Ok(b),
            Some(Err(e)) => Err("无法编码该格式："@ + e),
            None => Err(Seq::empty()),
        }
    }
}

/// The encoder used for the format returns on the image.
pub open spec fn encoding_returns(img: DynamicImage, format: ImageFormat) -> bool {
    format_is_jpeg(format) || format_encoded(img, format) is Some
}

/// The image encoded in a format (see [`encoding_of`]); inputs on which
/// the encoder does not return are left out.
fn encode_image(img: &DynamicImage, format: ImageFormat) -> (r: Result<Vec<u8>, String>)
    requires
        encoding_returns(*img, format),
    ensures
        bytes_result(r) == encoding_of(*img, format),
{
    if is_jpeg(&format) {
        return encode_jpeg(img, 92);
    }
    match encode_with(img, format) {
        Ok(b) => Ok(b),
        Err(e) => Err(concat_str("无法编码该格式：", e.as_str())),
    }
}

fn concat_str(a: &str, b: &str) -> (r: String)
    ensures
        r@ == a@ + b@,
{
    let mut v = chars_of(a);
    append_chars(&mut v, chars_of(b).as_slice());
    string_from_chars(v.as_slice())
}

/// The format an image file is written back in, from its path's extension:
/// found exactly when the `image` crate knows the extension, else refused.
pub fn rotation_format(path: &str) -> (r: Result<ImageFormat, String>)
    ensures
        r is Ok <==> names_image_format(path@),
        r matches Err(e) ==> e@ == "无法识别图片格式"@,
{
    match image_format_of(path) {
        Some(f) => Ok(f),
        None => Err("无法识别图片格式".to_owned()),
    }
}

/// The orientation tag of EXIF metadata.
pub const ORIENTATION_TAG: u16 = 0x0112;

/// Metadata `after` is `before` with its orientation set upright (the
/// orientation tag reads the 16-bit value 1 first).
pub open spec fn set_upright(before: Metadata, after: Metadata) -> bool {
    tag_put_first(before, after, ORIENTATION_TAG, u16s_bytes(seq![1u16], exif_little_endian(before)))
}

/// `out` is what writing metadata `m`, set upright, into `enc` gives.
pub open spec fn upright_written(m: Metadata, enc: Seq<u8>, ft: FileExtension, out: Seq<u8>) -> bool {
    exists|m2: Metadata|
        #[trigger] set_upright(m, m2) && exif_write(m2, enc, ft) is Some && exif_write(m2, enc, ft).unwrap().0 == out
}

/// `out` is what a rotated file ends with, from the encoded image `enc`:
/// the source's metadata set upright and written in, where the file type
/// holds metadata and the source's metadata can be read; else `enc`.
pub open spec fn rotation_output(source: Seq<u8>, enc: Seq<u8>, exif_type: Option<FileExtension>, out: Seq<u8>) -> bool {
    match exif_type {
        Some(ft) => match exif_read(source, ft) {
            Some(Ok(m)) => upright_written(m, enc, ft, out),
            _ => out == enc,
        },
        None => out == enc,
    }
}

/// The metadata reader and writer return on what a rotation hands them.
pub open spec fn rotation_returns(
    source: Seq<u8>,
    format: ImageFormat,
    rotation: Rotation,
    exif_type: Option<FileExtension>,
) -> bool {
    &&& image_load(source) is Some
    &&& image_load(source) matches Some(Ok(img)) ==> encoding_returns(image_turned(img, rotation), format)
    &&& match (image_load(source), exif_type) {
        (Some(Ok(img)), Some(ft)) => match encoding_of(image_turned(img, rotation), format) {
            Ok(enc) => {
                &&& exif_read(source, ft) is Some
                &&& forall|m: Metadata, m2: Metadata|
                    exif_read(source, ft) == Some(Ok::<Metadata, Seq<char>>(m)) && #[trigger] set_upright(m, m2)
                        ==> exif_write(m2, enc, ft) is Some
            },
            Err(_) => true,
        },
        _ => true,
    }
}

/// The contents of a rotated image file: the source image decoded, turned,
/// encoded in its format (see [`encoding_of`]), with the source's metadata
/// (orientation set upright) when `exif_type` tells how the file holds
/// metadata (see [`rotation_output`]). Undecodable bytes, an encoder's
/// failure and an empty result are refused; inputs on which the metadata
/// reader or writer does not return are left out.
pub fn rotated_bytes(
    source: &Vec<u8>,
    format: ImageFormat,
    rotation: Rotation,
    exif_type: Option<FileExtension>,
) -> (r: Result<Vec<u8>, String>)
    requires
        rotation_returns(source@, format, rotation, exif_type),
    ensures
        match image_load(source@) {
            None => false,
            Some(Err(m)) => r matches Err(e) && e@ == "无法解码图片："@ + m,
            Some(Ok(img)) => match encoding_of(image_turned(img, rotation), format) {
                Err(e) => r matches Err(x) && x@ == e,
                Ok(enc) => exists|out: Seq<u8>|
                    #[trigger] rotation_output(source@, enc, exif_type, out) && if out.len() == 0 {
                        r matches Err(x) && x@ == "编码结果为空"@
                    } else {
                        r matches Ok(b) && b@ == out
                    },
            },
        },
{
    let img = match decode_image(source.as_slice()) {
        Ok(img) => img,
        Err(e) => return Err(concat_str("无法解码图片：", e.as_str())),
    };
    let turned = rotate_image(&img, rotation);
    let mut buf = match encode_image(&turned, format) {
        Ok(b) => b,
        Err(e) => return Err(e),
    };
    let ghost enc = buf@;
    if let Some(ft) = exif_type {
        if let Ok(mut meta) = metadata_from_bytes(source, ft) {
            let ghost m = meta;
            let mut one: Vec<u16> = Vec::new();
            one.push(1);
            assert(one@ =~= seq![1u16]);
            set_u16_tag(&mut meta, ORIENTATION_TAG, one);
            assert(set_upright(m, meta));
            let ghost m2 = meta;
            let _ = write_metadata(&meta, &mut buf, ft);
            assert(exif_read(source@, ft) == Some(Ok::<Metadata, Seq<char>>(m)));
            assert(set_upright(m, m2) && exif_write(m2, enc, ft) is Some && exif_write(m2, enc, ft).unwrap().0 == buf@);
            assert(upright_written(m, enc, ft, buf@));
            assert(rotation_output(source@, enc, exif_type, buf@));
        } else {
            assert(rotation_output(source@, enc, exif_type, buf@));
        }
    } else {
        assert(rotation_output(source@, enc, exif_type, buf@));
    }
    if buf.len() == 0 {
        return Err("编码结果为空".to_owned());
    }
    Ok(buf)
}

/// The metadata a conversion writes: the source's, read from its bytes,
/// else `fallback`.
pub open spec fn conversion_metadata(source: Seq<u8>, ft: FileExtension, fallback: Option<Metadata>) -> Option<Metadata> {
    match exif_read(source, ft) {
        Some(Ok(m)) => Some(m),
        _ => fallback,
    }
}

/// What a converted file ends with, from the encoded image `enc`: the
/// conversion's metadata written in, where the file type holds metadata
/// and there is metadata; else `enc`.
pub open spec fn conversion_output(
    source: Seq<u8>,
    enc: Seq<u8>,
    exif_type: Option<FileExtension>,
    fallback: Option<Metadata>,
) -> Seq<u8> {
    match exif_type {
        Some(ft) => match conversion_metadata(source, ft, fallback) {
            Some(m) => match exif_write(m, enc, ft) {
                Some((o, _)) => o,
                None => enc,
            },
            None => enc,
        },
        None => enc,
    }
}

/// The metadata reader and writer return on what a conversion hands them.
pub open spec fn conversion_returns(
    source: Seq<u8>,
    f: ImageFmt,
    exif_type: Option<FileExtension>,
    fallback: Option<Metadata>,
) -> bool {
    &&& image_load(source) is Some
    &&& image_load(source) matches Some(Ok(img)) ==> encoding_returns(img, image_format_for(f))
    &&& match (image_load(source), exif_type) {
        (Some(Ok(img)), Some(ft)) => match encoding_of(img, image_format_for(f)) {
            Ok(enc) => {
                &&& exif_read(source, ft) is Some
                &&& conversion_metadata(source, ft, fallback) matches Some(m) ==> exif_write(m, enc, ft) is Some
            },
            Err(_) => true,
        },
        _ => true,
    }
}

/// A converted image: named after the stem of its path with the format's
/// extension, decoded from the source and encoded in the format (see
/// [`encoding_of`]), with the source's metadata (read from its bytes, else
/// `fallback`) when `exif_type` tells how the result holds metadata (see
/// [`conversion_output`]). Undecodable bytes, an encoder's failure and an
/// empty result are refused; inputs on which the metadata reader or writer
/// does not return are left out.
pub fn converted_bytes(
    source: &Vec<u8>,
    rel: &str,
    f: ImageFmt,
    exif_type: Option<FileExtension>,
    fallback: Option<Metadata>,
) -> (r: Result<(String, Vec<u8>), String>)
    requires
        conversion_returns(source@, f, exif_type, fallback),
    ensures
        match image_load(source@) {
            None => false,
            Some(Err(m)) => r matches Err(e) && e@ == "无法解码："@ + m,
            Some(Ok(img)) => match encoding_of(img, image_format_for(f)) {
                Err(e) => r matches Err(x) && x@ == e,
                Ok(enc) => {
                    let out = conversion_output(source@, enc, exif_type, fallback);
                    if out.len() == 0 {
                        r matches Err(x) && x@ == "编码结果为空"@
                    } else {
                        r matches Ok((name, b)) && name@ == converted_name(rel@, f) && b@ == out
                    }
                },
            },
        },
{
    let img = match decode_image(source.as_slice()) {
        Ok(img) => img,
        Err(e) => return Err(concat_str("无法解码：", e.as_str())),
    };
    let mut buf = match encode_image(&img, image_format(f)) {
        Ok(b) => b,
        Err(e) => return Err(e),
    };
    let ghost enc = buf@;
    let name = crate::export::converted_file_name(rel, f);
    if let Some(ft) = exif_type {
        let meta = match metadata_from_bytes(source, ft) {
            Ok(m) => Some(m),
            Err(_) => fallback,
        };
        assert(meta == conversion_metadata(source@, ft, fallback));
        if let Some(m) = meta {
            let _ = write_metadata(&m, &mut buf, ft);
        }
    }
    assert(buf@ == conversion_output(source@, enc, exif_type, fallback));
    if buf.len() == 0 {
        return Err("编码结果为空".to_owned());
    }
    Ok((name, buf))
}

} // verus!
