use pic_viewer::rating::{
    check_rating, decode_user_comment, encode_user_comment, image_target, looks_like_utf16,
    mark_tags, parse_rating, parse_tags, percent_for, tag_write, MetaTags, TagWrite,
};
use pic_viewer::sniff::FileKind;
use pic_viewer::textfile::{decode_text, read_check, text_content, write_check};

fn meta(little: bool, rating: Option<Vec<u8>>, comment: Option<Vec<u8>>, desc: Option<Vec<u8>>) -> MetaTags {
    MetaTags { little_endian: little, rating, user_comment: comment, description: desc }
}

#[test]
fn rating_percentages() {
    let got: Vec<u16> = (0u8..=6).map(percent_for).collect();
    assert_eq!(got, vec![0, 1, 25, 50, 75, 99, 99]);
}

#[test]
fn ratings_read_from_tag_bytes() {
    assert_eq!(parse_rating(&meta(true, Some(vec![3, 0]), None, None)), 3);
    assert_eq!(parse_rating(&meta(false, Some(vec![0, 4]), None, None)), 4);
    assert_eq!(parse_rating(&meta(true, Some(vec![9, 0]), None, None)), 5);
    assert_eq!(parse_rating(&meta(true, Some(vec![0, 1]), None, None)), 5);
    assert_eq!(parse_rating(&meta(true, Some(vec![2]), None, None)), 2);
    assert_eq!(parse_rating(&meta(true, Some(vec![]), None, None)), 0);
    assert_eq!(parse_rating(&meta(true, None, None, None)), 0);
}

#[test]
fn user_comments_in_their_encodings() {
    assert!(looks_like_utf16(b"a\0b\0"));
    assert!(!looks_like_utf16(b"ab"));
    assert!(!looks_like_utf16(b"a"));
    assert_eq!(decode_user_comment(b"UNICODE\0h\0i\0", true), "hi");
    assert_eq!(decode_user_comment(b"UNICODE\0\0h\0i", false), "hi");
    assert_eq!(decode_user_comment(b"ASCII\0\0\0 tags ", true), "tags");
    assert_eq!(decode_user_comment(b"\0\0\0\0\0\0\0\0x", true), "x");
    assert_eq!(decode_user_comment(b"h\0i\0", true), "hi");
    assert_eq!(decode_user_comment(b"plain", true), "plain");
}

#[test]
fn user_comment_bytes_round_trip() {
    assert_eq!(encode_user_comment("hi", true), b"UNICODE\0h\0i\0".to_vec());
    assert_eq!(encode_user_comment("hi", false), b"UNICODE\0\0h\0i".to_vec());
    assert_eq!(
        encode_user_comment("\u{1F600}", true),
        vec![0x55, 0x4e, 0x49, 0x43, 0x4f, 0x44, 0x45, 0x00, 0x3d, 0xd8, 0x00, 0xde]
    );
    let bytes = encode_user_comment("猫, dog", true);
    assert_eq!(decode_user_comment(&bytes, true), "猫, dog");
}

#[test]
fn tags_fall_back_to_the_description() {
    let m = meta(true, None, Some(b"UNICODE\0".to_vec()), Some(b" a, b ".to_vec()));
    assert_eq!(parse_tags(&m), "a, b");
    let m = meta(true, None, Some(b"UNICODE\0x\0".to_vec()), Some(b"y".to_vec()));
    assert_eq!(parse_tags(&m), "x");
    assert_eq!(parse_tags(&meta(true, None, None, None)), "");
}

#[test]
fn tag_values_written() {
    assert!(matches!(tag_write("", true), TagWrite::Remove));
    match tag_write("a", false) {
        TagWrite::Write { user_comment, description } => {
            assert_eq!(user_comment, b"UNICODE\0\0a".to_vec());
            assert_eq!(description, "a");
        }
        TagWrite::Remove => panic!("tags were removed"),
    }
    let m = meta(true, None, Some(b"UNICODE\0a\0".to_vec()), None);
    let (merged, write) = mark_tags(&m, "b, A");
    assert_eq!(merged, "a, b");
    assert!(matches!(write, TagWrite::Write { .. }));
}

#[test]
fn rating_and_target_checks() {
    assert_eq!(check_rating(6), Err("星标须为 0–5".to_string()));
    assert_eq!(check_rating(5), Ok(()));
    assert_eq!(image_target("", Ok(true)), Err("未选择图片".to_string()));
    assert_eq!(image_target("a", Ok(false)), Err("文件不存在".to_string()));
    assert_eq!(image_target("a", Err("路径越界".to_string())), Err("路径越界".to_string()));
    assert_eq!(image_target("a", Ok(true)), Ok(()));
}

#[test]
fn text_files_open_within_limits() {
    assert_eq!(read_check("", Ok(Some(1))), Err("不能打开根目录".to_string()));
    assert_eq!(read_check("a", Ok(None)), Err("不是文件".to_string()));
    assert_eq!(read_check("a", Ok(Some(3_000_000))), Err("文件过大，无法在编辑器中打开".to_string()));
    assert_eq!(read_check("a", Ok(Some(2_097_152))), Ok(()));
    assert_eq!(decode_text(b"\xef\xbb\xbfhi"), "hi");
    assert_eq!(decode_text(b"\xff\xfeh\0i\0"), "hi");
    assert_eq!(decode_text(b"\xfe\xff\0h\0i"), "hi");
    assert_eq!(decode_text(b"a\xffb"), "a\u{FFFD}b");
    assert_eq!(text_content(b"hello"), Ok("hello".to_string()));
    assert_eq!(text_content(b"PK\x03\x04...."), Err("不是文本文件".to_string()));
}

#[test]
fn text_files_save_within_limits() {
    assert_eq!(write_check("", "x", Ok((false, None))), Err("不能写入根目录".to_string()));
    assert_eq!(write_check("a", "x", Ok((true, None))), Err("不能写入目录".to_string()));
    assert_eq!(
        write_check("a", "x", Ok((false, Some(FileKind::Image)))),
        Err("不是文本文件".to_string())
    );
    assert_eq!(write_check("a", "x", Ok((false, Some(FileKind::Text)))), Ok(()));
    assert_eq!(write_check("a", "x", Ok((false, None))), Ok(()));
    let big = "x".repeat(8 * 1024 * 1024 + 1);
    assert_eq!(write_check("a", &big, Ok((false, None))), Err("内容过大，无法保存".to_string()));
}
