use image::{GenericImageView, ImageFormat, RgbImage};
use little_exif::filetype::FileExtension;
use little_exif::metadata::Metadata;
use pic_viewer::exif::{apply_edit, edit_metadata, meta_tags_of, MetaEdit};
use pic_viewer::export::ImageFmt;
use pic_viewer::imaging::{converted_bytes, rotated_bytes, rotation_format};
use pic_viewer::rating::{parse_rating, parse_tags};
use pic_viewer::viewer::Rotation;

fn sample(format: ImageFormat) -> Vec<u8> {
    let mut img = RgbImage::new(2, 1);
    img.put_pixel(0, 0, image::Rgb([255, 0, 0]));
    img.put_pixel(1, 0, image::Rgb([0, 0, 255]));
    let mut buf = std::io::Cursor::new(Vec::new());
    image::DynamicImage::ImageRgb8(img).write_to(&mut buf, format).unwrap();
    buf.into_inner()
}

#[test]
fn rotation_turns_the_image() {
    let png = sample(ImageFormat::Png);
    let out = rotated_bytes(&png, ImageFormat::Png, Rotation::Quarter, None).unwrap();
    let img = image::load_from_memory(&out).unwrap();
    assert_eq!(img.dimensions(), (1, 2));
    let out = rotated_bytes(&png, ImageFormat::Png, Rotation::Half, None).unwrap();
    assert_eq!(image::load_from_memory(&out).unwrap().dimensions(), (2, 1));
}

#[test]
fn undecodable_bytes_are_refused() {
    let bad = b"not an image".to_vec();
    let e = rotated_bytes(&bad, ImageFormat::Png, Rotation::Quarter, None).unwrap_err();
    assert!(e.starts_with("无法解码图片："));
    let e = converted_bytes(&bad, "a.png", ImageFmt::Jpeg, None, None).unwrap_err();
    assert!(e.starts_with("无法解码："));
}

#[test]
fn conversion_names_and_encodes() {
    let png = sample(ImageFormat::Png);
    let (name, bytes) = converted_bytes(&png, "d/photo.png", ImageFmt::Jpeg, None, None).unwrap();
    assert_eq!(name, "photo.jpg");
    assert_eq!(image::guess_format(&bytes).unwrap(), ImageFormat::Jpeg);
    let (name, bytes) = converted_bytes(&png, "d/photo.png", ImageFmt::Bmp, None, None).unwrap();
    assert_eq!(name, "photo.bmp");
    assert_eq!(image::guess_format(&bytes).unwrap(), ImageFormat::Bmp);
}

#[test]
fn formats_from_paths() {
    assert_eq!(rotation_format("a/b.JPG"), Ok(ImageFormat::Jpeg));
    assert_eq!(rotation_format("a/b.png"), Ok(ImageFormat::Png));
    assert_eq!(rotation_format("a/b.xyz"), Err("无法识别图片格式".to_string()));
}

#[test]
fn marks_are_written_into_metadata() {
    let jpeg = sample(ImageFormat::Jpeg);
    let (bytes, merged) = edit_metadata(jpeg, FileExtension::JPEG, MetaEdit::Mark(3, "a, b".to_string())).unwrap();
    assert_eq!(merged, "a, b");
    let meta = Metadata::new_from_vec(&bytes, FileExtension::JPEG).unwrap();
    let tags = meta_tags_of(&meta);
    assert_eq!(parse_rating(&tags), 3);
    assert_eq!(parse_tags(&tags), "a, b");
    let (bytes, merged) = edit_metadata(bytes, FileExtension::JPEG, MetaEdit::Mark(5, "B, c".to_string())).unwrap();
    assert_eq!(merged, "a, b, c");
    let (bytes, none) = edit_metadata(bytes, FileExtension::JPEG, MetaEdit::Tags(String::new())).unwrap();
    assert_eq!(none, "");
    let meta = Metadata::new_from_vec(&bytes, FileExtension::JPEG).unwrap();
    let tags = meta_tags_of(&meta);
    assert_eq!(parse_rating(&tags), 5);
    assert_eq!(parse_tags(&tags), "");
}

#[test]
fn edits_apply_to_metadata_in_memory() {
    let mut meta = Metadata::new();
    assert_eq!(apply_edit(&mut meta, MetaEdit::Rating(3)), "");
    let tags = meta_tags_of(&meta);
    assert!(tags.little_endian);
    assert_eq!(tags.rating, Some(vec![3, 0]));
    assert_eq!(tags.user_comment, None);
    let merged = apply_edit(&mut meta, MetaEdit::Mark(4, "x".to_string()));
    assert_eq!(merged, "x");
    let tags = meta_tags_of(&meta);
    assert_eq!(tags.rating, Some(vec![4, 0]));
    assert_eq!(tags.description, Some(b"x\0".to_vec()));
    assert_eq!(parse_tags(&tags), "x");
    assert_eq!(apply_edit(&mut meta, MetaEdit::Tags(String::new())), "");
    let tags = meta_tags_of(&meta);
    assert_eq!(tags.description, None);
    assert_eq!(tags.user_comment, None);
    assert_eq!(tags.rating, Some(vec![4, 0]));
}

#[test]
fn rotation_format_follows_the_last_extension() {
    assert_eq!(rotation_format("a/b.tar.PNG"), Ok(ImageFormat::Png));
    assert_eq!(rotation_format("a/.png"), Err("无法识别图片格式".to_string()));
    assert_eq!(rotation_format("a/b"), Err("无法识别图片格式".to_string()));
    assert_eq!(rotation_format("x/a.jpeg/"), Ok(ImageFormat::Jpeg));
}

#[test]
fn written_tags_read_back_normalized() {
    for text in ["  猫, 🐱 ", "a\0b", "x"] {
        let mut meta = Metadata::new();
        assert_eq!(apply_edit(&mut meta, MetaEdit::Tags(text.to_string())), "");
        let tags = meta_tags_of(&meta);
        assert_eq!(parse_tags(&tags), pic_viewer::filter::normalize_tag_text(text));
    }
}
