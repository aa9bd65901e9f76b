use pic_viewer::media::{
    imgproxy_base, imgproxy_fetch_url, imgproxy_plan, parse_bytes_range, preview_processing,
    proxy_cache_control, range_response, thumb_processing, ProxyPlan,
};
use pic_viewer::path::{
    is_image_name, join_rel, media_url, parent_path, preview_url, rel_name, rewrite_prefix,
    thumb_url, validate_file_name,
};
use pic_viewer::sandbox::{is_under_root, join_path, mime_for, resolve_path, to_rel, unique_dest};

#[test]
fn image_names_by_extension() {
    assert!(is_image_name("a.JPG"));
    assert!(is_image_name("x.y.webp"));
    assert!(!is_image_name("a.txt"));
    assert!(!is_image_name("jpg"));
}

#[test]
fn parents_names_and_joins() {
    assert_eq!(parent_path("a/b/c.jpg"), "a/b");
    assert_eq!(parent_path("c.jpg"), "");
    assert_eq!(rel_name("a/b/c.jpg"), "c.jpg");
    assert_eq!(join_rel("", "x"), "x");
    assert_eq!(join_rel("a", "x"), "a/x");
}

#[test]
fn file_name_validation_messages() {
    assert_eq!(validate_file_name("  "), Err("名称不能为空".to_string()));
    assert_eq!(validate_file_name(".."), Err("非法名称".to_string()));
    assert_eq!(validate_file_name("a/b"), Err("名称不能包含路径分隔符".to_string()));
    assert_eq!(validate_file_name("a\u{7}"), Err("名称包含非法字符".to_string()));
    assert_eq!(validate_file_name(" ok.txt "), Ok(()));
}

#[test]
fn prefix_rewriting_follows_whole_segments() {
    assert_eq!(rewrite_prefix("a/b/c", "a/b", "x"), "x/c");
    assert_eq!(rewrite_prefix("a/bc", "a/b", "x"), "a/bc");
    assert_eq!(rewrite_prefix("a/b", "a/b", "x"), "x");
}

#[test]
fn urls_encode_each_segment() {
    assert_eq!(media_url("dir/my pic.jpg"), "/media/dir/my%20pic.jpg");
    assert_eq!(thumb_url("a//b.jpg"), "/thumb/a/b.jpg");
    assert_eq!(preview_url("中.jpg"), "/preview/%E4%B8%AD.jpg");
}

#[test]
fn relative_paths_below_the_root() {
    assert_eq!(to_rel("/pics/a/b.jpg", "/pics"), "a/b.jpg");
    assert_eq!(to_rel("/pics", "/pics"), "");
    assert_eq!(to_rel("/other/x", "/pics"), "");
    assert_eq!(to_rel("/picsx/y", "/pics"), "");
    assert_eq!(join_path("/pics", "a"), "/pics/a");
    assert_eq!(join_path("/pics/", "a"), "/pics/a");
    assert!(is_under_root("/pics/a", "/pics"));
    assert!(!is_under_root("/picsa", "/pics"));
}

#[test]
fn join_then_relative_round_trip() {
    let full = join_path("/pics", "a/b.jpg");
    assert_eq!(to_rel(&full, "/pics"), "a/b.jpg");
}

#[test]
fn resolution_stays_in_root() {
    assert_eq!(resolve_path("/pics", "../etc", None, None), Err("非法路径".to_string()));
    assert_eq!(resolve_path("/pics", "a/../../x", None, None), Err("非法路径".to_string()));
    assert_eq!(resolve_path("/pics", "a\0b", None, None), Err("非法路径".to_string()));
    assert_eq!(
        resolve_path("/pics", "/a.jpg", Some(Ok("/pics/a.jpg".to_string())), None),
        Ok("/pics/a.jpg".to_string())
    );
    assert_eq!(
        resolve_path("/pics", "link", Some(Ok("/etc/passwd".to_string())), None),
        Err("路径越界".to_string())
    );
    assert_eq!(
        resolve_path("/pics", "new.txt", None, Some(Ok("/pics".to_string()))),
        Ok("/pics/new.txt".to_string())
    );
    assert_eq!(
        resolve_path("/pics", "d/new.txt", None, None),
        Err("目标目录不存在".to_string())
    );
    assert_eq!(
        resolve_path("/pics", "", Some(Ok("/pics".to_string())), None),
        Ok("/pics".to_string())
    );
}

#[test]
fn copy_names_avoid_taken_ones() {
    let none: Vec<String> = Vec::new();
    assert_eq!(unique_dest("/d", "a.jpg", &none), "/d/a.jpg");
    assert_eq!(unique_dest("/d", "a.jpg", &vec!["a.jpg".to_string()]), "/d/a (1).jpg");
    assert_eq!(
        unique_dest("/d", "a.jpg", &vec!["a.jpg".to_string(), "a (1).jpg".to_string()]),
        "/d/a (2).jpg"
    );
    assert_eq!(unique_dest("/d", "noext", &vec!["noext".to_string()]), "/d/noext (1)");
    assert_eq!(unique_dest("/d", ".hidden", &vec![".hidden".to_string()]), "/d/.hidden (1)");
}

#[test]
fn mime_types_by_extension() {
    assert_eq!(mime_for("x/y.JPG"), "image/jpeg");
    assert_eq!(mime_for("a.svg"), "image/svg+xml");
    assert_eq!(mime_for("a.tiff"), "image/tiff");
    assert_eq!(mime_for("a"), "application/octet-stream");
}

#[test]
fn byte_ranges() {
    assert_eq!(parse_bytes_range(Some("bytes=0-99"), 1000), Some((0, 99)));
    assert_eq!(parse_bytes_range(Some("bytes=-100"), 1000), Some((900, 999)));
    assert_eq!(parse_bytes_range(Some("bytes=500-"), 1000), Some((500, 999)));
    assert_eq!(parse_bytes_range(Some("bytes=900-2000"), 1000), Some((900, 999)));
    assert_eq!(parse_bytes_range(Some("bytes=1000-"), 1000), None);
    assert_eq!(parse_bytes_range(Some("bytes=5-3"), 1000), None);
    assert_eq!(parse_bytes_range(Some("items=0-1"), 1000), None);
    assert_eq!(parse_bytes_range(None, 1000), None);
    assert_eq!(parse_bytes_range(Some("bytes=-0"), 1000), None);
    assert_eq!(parse_bytes_range(Some("bytes=-5000"), 1000), Some((0, 999)));
    assert_eq!(parse_bytes_range(Some(" bytes=1-2, 5-6 "), 1000), Some((1, 2)));
    assert_eq!(parse_bytes_range(Some("bytes=+1-2"), 1000), Some((1, 2)));
    assert_eq!(parse_bytes_range(Some("bytes=a-2"), 1000), None);
    assert_eq!(parse_bytes_range(Some("bytes=-1"), 0), None);
    assert_eq!(parse_bytes_range(Some("bytes=0-99999999999999999999"), 10), None);
}

#[test]
fn range_response_headers() {
    assert_eq!(
        range_response(Some((0, 99)), 1000),
        (206, Some("bytes 0-99/1000".to_string()), 100)
    );
    assert_eq!(range_response(None, 1000), (200, None, 1000));
}

#[test]
fn image_proxy_requests() {
    assert_eq!(imgproxy_base(Some(" http://img:8080/ ")), Some("http://img:8080".to_string()));
    assert_eq!(imgproxy_base(Some(" / ")), None);
    assert_eq!(imgproxy_base(None), None);
    assert_eq!(
        imgproxy_fetch_url("http://p", "/a.jpg", "q:1"),
        "http://p/insecure/q:1/bG9jYWw6Ly8vYS5qcGc"
    );
    assert_eq!(
        imgproxy_fetch_url("http://p", "d/中.jpg", thumb_processing()),
        "http://p/insecure/rs:fill:184:128:0/g:ce/q:70/f:webp/bG9jYWw6Ly8vZC_kuK0uanBn"
    );
    assert_eq!(imgproxy_plan(None, Some("a.jpg"), preview_processing()), ProxyPlan::ServeOriginal);
    assert_eq!(imgproxy_plan(Some("http://p"), None, preview_processing()), ProxyPlan::NotFound);
    assert_eq!(imgproxy_plan(Some("http://p"), Some(""), preview_processing()), ProxyPlan::NotFound);
    assert_eq!(
        imgproxy_plan(Some("http://p"), Some("a.jpg"), "x"),
        ProxyPlan::Fetch("http://p/insecure/x/bG9jYWw6Ly8vYS5qcGc".to_string())
    );
    assert_eq!(proxy_cache_control(None), "private, max-age=120");
    assert_eq!(proxy_cache_control(Some("no-cache".to_string())), "no-cache");
}

#[test]
fn media_types_agree_with_image_names() {
    for n in ["A.JPG", "x.tif", "b.Png", "c.svg", "d.txt", "e", "f.tar.gz", "g.WEBP", "h.jpeg.bak"] {
        let image = is_image_name(n);
        let mime = mime_for(n);
        assert_eq!(mime != "application/octet-stream", image, "{}", n);
        if image {
            assert!(mime.starts_with("image/"), "{}", n);
        }
    }
    assert_eq!(mime_for("A.JPG"), "image/jpeg");
    assert_eq!(mime_for("x.tif"), "image/tiff");
}

#[test]
fn joining_then_relative_gives_the_path_back() {
    for root in ["/pics", "/", "/pics/"] {
        for rel in ["a", "a/b.jpg", "x y/z"] {
            assert_eq!(to_rel(&join_path(root, rel), root), rel);
        }
    }
}

#[test]
fn relative_outside_the_root_is_empty() {
    for root in ["/pics", "/pics/"] {
        assert_eq!(to_rel(root, root), "");
        assert_eq!(to_rel("/other/a.jpg", root), "");
        assert_eq!(to_rel("/picsx/a.jpg", root), "");
    }
    assert_eq!(mime_for("x.png/."), "image/png");
}

#[test]
fn resolving_then_relative_gives_the_path_back() {
    for rel in ["a", "a/b.jpg", "x/y z.png"] {
        let joined = join_path("/pics", rel);
        let p = resolve_path("/pics", rel, Some(Ok(joined.clone())), None).unwrap();
        assert_eq!(to_rel(&p, "/pics"), rel);
    }
}

#[test]
fn a_trailing_dot_segment_names_its_directory() {
    assert_eq!(
        resolve_path("/pics", "x/.", None, Some(Ok("/pics".to_string()))),
        Ok("/pics/x".to_string())
    );
    assert_eq!(mime_for("a/x.png/./"), "image/png");
    assert_eq!(mime_for("."), "application/octet-stream");
}
