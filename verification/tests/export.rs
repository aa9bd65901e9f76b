use pic_viewer::downloads::{DownloadStore, StoredDownload};
use pic_viewer::batch::{nothing_checked, tally, unique_paths, ItemOutcome};
use pic_viewer::export::{
    content_disposition, converted_file_name, download_mime, download_plan, export_url,
    exports_to_folder, file_stem_name, parse_kind, sanitize_rel_dir, unique_out_name,
    DownloadPlan, ExportKind, ImageFmt,
};

#[test]
fn export_formats() {
    assert_eq!(parse_kind(" JPEG "), Ok(ExportKind::Convert(ImageFmt::Jpeg)));
    assert_eq!(parse_kind("orig"), Ok(ExportKind::Original));
    assert_eq!(parse_kind("Original"), Ok(ExportKind::Original));
    assert_eq!(parse_kind("tif"), Ok(ExportKind::Convert(ImageFmt::Tiff)));
    assert_eq!(parse_kind("webp"), Ok(ExportKind::Convert(ImageFmt::WebP)));
    assert_eq!(parse_kind("heic"), Err("不支持的导出格式".to_string()));
    assert_eq!(ImageFmt::Tiff.ext(), "tiff");
    assert_eq!(ImageFmt::Jpeg.mime(), "image/jpeg");
}

#[test]
fn target_folders_are_sanitized() {
    assert_eq!(sanitize_rel_dir(" /a\\b/ "), Ok("a/b".to_string()));
    assert_eq!(sanitize_rel_dir(""), Ok(String::new()));
    assert_eq!(sanitize_rel_dir("a//b"), Ok("a//b".to_string()));
    assert_eq!(sanitize_rel_dir("a/../b"), Err("非法名称".to_string()));
    assert_eq!(sanitize_rel_dir("a/b\u{1}"), Err("名称包含非法字符".to_string()));
}

#[test]
fn stems_and_converted_names() {
    assert_eq!(file_stem_name("d/photo.final.jpg"), "photo.final");
    assert_eq!(file_stem_name(".bashrc"), ".bashrc");
    assert_eq!(file_stem_name("d/noext"), "noext");
    assert_eq!(converted_file_name("d/x.png", ImageFmt::Jpeg), "x.jpg");
}

#[test]
fn download_names_are_unique() {
    let mut used: Vec<String> = Vec::new();
    assert_eq!(unique_out_name(&mut used, "a.jpg"), "a.jpg");
    assert_eq!(unique_out_name(&mut used, "a.jpg"), "a (1).jpg");
    assert_eq!(unique_out_name(&mut used, "a.jpg"), "a (2).jpg");
    assert_eq!(unique_out_name(&mut used, "a (1).jpg"), "a (1) (1).jpg");
    assert_eq!(unique_out_name(&mut used, ".x"), ".x");
    assert_eq!(unique_out_name(&mut used, ".x"), ".x (1)");
    assert_eq!(used.len(), 6);
}

#[test]
fn how_downloads_are_handed_out() {
    assert_eq!(download_plan(true, 0), DownloadPlan::Nothing);
    assert_eq!(download_plan(true, 1), DownloadPlan::Single);
    assert_eq!(download_plan(true, 3), DownloadPlan::Zip);
    assert_eq!(download_plan(false, 2), DownloadPlan::Nothing);
    assert_eq!(download_mime(ExportKind::Original, "a.png"), "image/png");
    assert_eq!(download_mime(ExportKind::Convert(ImageFmt::WebP), "a.png"), "image/webp");
    assert_eq!(export_url(42), "/export/42");
    assert!(exports_to_folder("dir"));
    assert!(!exports_to_folder("download"));
    assert_eq!(content_disposition("a\"b.jpg"), "attachment; filename=\"ab.jpg\"");
}

#[test]
fn batches_count_and_report() {
    let paths = vec!["a".to_string(), String::new(), "b".to_string(), "a".to_string()];
    assert_eq!(unique_paths(&paths), vec!["a".to_string(), "b".to_string()]);
    let none = nothing_checked();
    assert_eq!(none.len(), 1);
    assert_eq!(none[0].file, "");
    assert_eq!(none[0].error, "没有已勾选的图片");
    let rels = vec![
        "x/a.jpg".to_string(),
        "y/b.jpg".to_string(),
        "c.jpg".to_string(),
        "z/d.jpg".to_string(),
    ];
    let outcomes = vec![
        ItemOutcome::Done,
        ItemOutcome::NotFile,
        ItemOutcome::Unresolved("非法路径".to_string()),
        ItemOutcome::Failed("无法解码".to_string()),
    ];
    let (ok, failures) = tally(&rels, &outcomes);
    assert_eq!(ok, 1);
    let got: Vec<(String, String)> = failures.into_iter().map(|f| (f.file, f.error)).collect();
    assert_eq!(
        got,
        vec![
            ("b.jpg".to_string(), "不是文件".to_string()),
            ("c.jpg".to_string(), "非法路径".to_string()),
            ("z/d.jpg".to_string(), "无法解码".to_string()),
        ]
    );
}

fn stored(id: u64, delete_after: bool, created: u64) -> StoredDownload {
    StoredDownload {
        filename: format!("f{id}"),
        mime: "image/png".to_string(),
        path: format!("/tmp/p{id}"),
        delete_after,
        created,
    }
}

#[test]
fn downloads_expire_and_are_handed_out_once() {
    let mut store = DownloadStore::new();
    assert!(store.put(1, stored(1, true, 0), 0).is_empty());
    assert!(store.put(2, stored(2, false, 10), 10).is_empty());
    assert!(store.put(3, stored(3, true, 899), 899).is_empty());
    let gone = store.put(4, stored(4, true, 905), 905);
    assert_eq!(gone, vec!["/tmp/p1".to_string()]);
    let mut ids: Vec<u64> = store.entries.keys().copied().collect();
    ids.sort();
    assert_eq!(ids, vec![2, 3, 4]);
    assert_eq!(store.take(3).map(|e| e.filename), Some("f3".to_string()));
    assert!(store.take(3).is_none());
    assert!(store.take(9).is_none());
    let mut gone = store.put(5, stored(5, false, 2000), 2000);
    gone.sort();
    assert_eq!(gone, vec!["/tmp/p4".to_string()]);
    assert_eq!(store.entries.len(), 1);
}
