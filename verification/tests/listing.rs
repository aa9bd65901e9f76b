use pic_viewer::index::{IndexState, MetaScanStatus};
use pic_viewer::list::{entry_for, sort_entries, ImageRecord, ImageScan, ImageScanner, ListingCache};
use pic_viewer::sniff::FileKind;
use pic_viewer::structure::FsEntry;

fn key(s: &str) -> Vec<char> {
    s.to_lowercase().chars().collect()
}

fn rec(path: &str) -> ImageRecord {
    ImageRecord { path: path.to_string(), mtime: 1, size: 2 }
}

fn entry(name: &str, is_dir: bool) -> FsEntry {
    FsEntry { name: name.to_string(), path: format!("d/{name}"), is_dir, is_image: false, is_text: false }
}

#[test]
fn hidden_entries_are_skipped() {
    assert_eq!(entry_for(".hidden".to_string(), "d/.hidden".to_string(), false, FileKind::Text), None);
    let e = entry_for("a.jpg".to_string(), "d/a.jpg".to_string(), false, FileKind::Image).unwrap();
    assert!(e.is_image && !e.is_text && !e.is_dir);
    let d = entry_for("sub".to_string(), "d/sub".to_string(), true, FileKind::Text).unwrap();
    assert!(d.is_dir && !d.is_text);
}

#[test]
fn folders_first_then_names_ignoring_case() {
    let sorted = sort_entries(vec![entry("b", false), entry("Z", true), entry("A", false), entry("a", true)]);
    let names: Vec<(String, bool)> = sorted.into_iter().map(|e| (e.name, e.is_dir)).collect();
    assert_eq!(
        names,
        vec![
            ("a".to_string(), true),
            ("Z".to_string(), true),
            ("A".to_string(), false),
            ("b".to_string(), false),
        ]
    );
}

#[test]
fn recursive_scan_reads_subfolders_in_name_order() {
    let mut scan = ImageScanner::new("root".to_string(), true);
    assert_eq!(scan.next_dir(), Some("root".to_string()));
    scan.absorb(
        vec![(0, key("b.jpg"), rec("root/b.jpg")), (0, key("A.jpg"), rec("root/A.jpg"))],
        vec![(0, key("y"), "root/y".to_string()), (0, key("X"), "root/X".to_string())],
    );
    assert_eq!(scan.next_dir(), Some("root/X".to_string()));
    scan.absorb(vec![(0, key("c.png"), rec("root/X/c.png"))], Vec::new());
    assert_eq!(scan.next_dir(), Some("root/y".to_string()));
    scan.absorb(Vec::new(), Vec::new());
    assert_eq!(scan.next_dir(), None);
    let done = scan.finish();
    assert!(!done.truncated);
    let paths: Vec<String> = done.records.iter().map(|r| r.path.clone()).collect();
    assert_eq!(paths, vec!["root/A.jpg", "root/b.jpg", "root/X/c.png"]);
    let list = done.image_list();
    assert_eq!(list.paths.len(), 3);
}

#[test]
fn flat_scan_ignores_subfolders() {
    let mut scan = ImageScanner::new("root".to_string(), false);
    assert_eq!(scan.next_dir(), Some("root".to_string()));
    scan.absorb(Vec::new(), vec![(0, key("x"), "root/x".to_string())]);
    assert_eq!(scan.next_dir(), None);
    assert!(!scan.finish().truncated);
}

#[test]
fn scan_stops_at_the_limit() {
    let mut records = Vec::new();
    for i in 0..9999 {
        records.push(rec(&format!("p{i}")));
    }
    let mut scan = ImageScanner {
        records,
        truncated: false,
        stack: vec!["more".to_string()],
        recursive: true,
        stopped: false,
    };
    scan.absorb(vec![(0, key("a"), rec("a")), (0, key("b"), rec("b"))], Vec::new());
    assert_eq!(scan.records.len(), 10000);
    assert!(scan.truncated);
    assert_eq!(scan.records[9999].path, "a");
    assert_eq!(scan.next_dir(), None);
    assert!(scan.stopped);
    assert!(scan.finish().truncated);
}

#[test]
fn listing_cache_hits_only_the_same_request() {
    let mut cache = ListingCache::new();
    assert!(cache.lookup("d", false, 1).is_none());
    let scan = ImageScan { truncated: true, records: vec![rec("d/a.jpg")] };
    cache.store("d", false, 1, &scan);
    assert_eq!(cache.lookup("d", false, 1), Some(ImageScan { truncated: true, records: vec![rec("d/a.jpg")] }));
    assert!(cache.lookup("d", true, 1).is_none());
    assert!(cache.lookup("d", false, 2).is_none());
    assert!(cache.lookup("e", false, 1).is_none());
}

#[test]
fn metadata_index_lifecycle() {
    let mut idx = IndexState::new();
    assert_eq!(idx.begin("d", 1), Some(1));
    assert_eq!(idx.begin("d", 1), None);
    assert!(idx.listed(1, 2));
    assert!(idx.record(1, "d/a.jpg", 3, "x\0 "));
    assert!(idx.record(1, "d/b.jpg", 0, ""));
    assert_eq!(idx.filter("d", "any", 0, "contains", "", false), Err("元数据尚未读完".to_string()));
    idx.finished(1, "d");
    assert_eq!(idx.status("d"), MetaScanStatus { ready: true, done: 2, total: 2 });
    assert_eq!(idx.status("e"), MetaScanStatus { ready: false, done: 0, total: 0 });
    assert_eq!(idx.filter("d", "ge", 3, "contains", "", false), Ok(vec!["d/a.jpg".to_string()]));
    idx.touch_rating("d/b.jpg", 5);
    assert_eq!(
        idx.filter("d", "ge", 3, "contains", "", false),
        Ok(vec!["d/a.jpg".to_string(), "d/b.jpg".to_string()])
    );
    idx.touch_tags("d/a.jpg", " y ");
    assert_eq!(idx.filter("d", "any", 0, "contains", "x", false), Ok(Vec::new()));
    assert_eq!(idx.filter("d", "any", 0, "eq", "y", false), Ok(vec!["d/a.jpg".to_string()]));
    assert_eq!(
        idx.filter("e", "any", 0, "contains", "", false),
        Err("目录已切换，请等待元数据读取".to_string())
    );
    assert!(!idx.record(0, "d/c.jpg", 1, ""));
    assert!(idx.record(1, "d/a.jpg", 1, "z"));
    assert_eq!(idx.status("d").done, 2);
    assert_eq!(idx.begin("d", 2), Some(2));
    assert_eq!(idx.status("d"), MetaScanStatus { ready: false, done: 0, total: 0 });
    assert!(!idx.listed(2, 0));
    assert!(idx.status("d").ready);
    assert_eq!(idx.begin("e", 2), Some(3));
    idx.listing_failed(3);
    assert!(idx.status("e").ready);
}
