use pic_viewer::sniff::{binary_kind, kind_from_header, looks_like_text, FileKind};

#[test]
fn png_jpeg_gif_webp() {
    assert_eq!(
        kind_from_header(b"\x89PNG\r\n\x1a\nrest"),
        FileKind::Image
    );
    assert_eq!(kind_from_header(b"\xff\xd8\xff\xe0...."), FileKind::Image);
    assert_eq!(kind_from_header(b"GIF89a...."), FileKind::Image);
    let mut webp = [0u8; 16];
    webp[..4].copy_from_slice(b"RIFF");
    webp[8..12].copy_from_slice(b"WEBP");
    assert_eq!(kind_from_header(&webp), FileKind::Image);
}

#[test]
fn mp4_is_video_not_text() {
    let mut ftyp = [0u8; 16];
    ftyp[4..8].copy_from_slice(b"ftyp");
    ftyp[8..12].copy_from_slice(b"isom");
    assert_eq!(kind_from_header(&ftyp), FileKind::Video);
}

#[test]
fn utf8_and_svg_are_text() {
    assert_eq!(kind_from_header(b""), FileKind::Text);
    assert_eq!(kind_from_header("hello\nworld".as_bytes()), FileKind::Text);
    assert_eq!(kind_from_header("备注：测试".as_bytes()), FileKind::Text);
    assert_eq!(
        kind_from_header(b"<svg xmlns=\"http://www.w3.org/2000/svg\">"),
        FileKind::Text
    );
    assert_eq!(kind_from_header(b"{\"ok\": true}\n"), FileKind::Text);
}

#[test]
fn nul_and_zip_not_text() {
    assert_eq!(kind_from_header(b"hello\0world"), FileKind::Other);
    assert_eq!(kind_from_header(b"PK\x03\x04...."), FileKind::Other);
    assert_eq!(kind_from_header(b"%PDF-1.7...."), FileKind::Other);
}

#[test]
fn utf16_bom_is_text() {
    assert_eq!(kind_from_header(b"\xff\xfeh\0i\0"), FileKind::Text);
}

#[test]
fn binary_kind_of_plain_text_is_none() {
    assert_eq!(binary_kind(b"hello"), None);
    assert_eq!(binary_kind(b"GIF87a"), Some(FileKind::Image));
}

#[test]
fn text_cut_inside_a_character_still_counts() {
    let bytes = "备注".as_bytes();
    assert!(looks_like_text(&bytes[..4]));
    assert!(!looks_like_text(b"\x01\x02"));
    assert!(looks_like_text(b"\xef\xbb\xbfhi"));
}
