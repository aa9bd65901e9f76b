use pic_viewer::explorer::{ExplorerState, FailureItem, SelectedItem};
use pic_viewer::structure::FsEntry;

fn sel(path: &str, name: &str, is_dir: bool) -> SelectedItem {
    SelectedItem { path: path.to_string(), name: name.to_string(), is_dir, is_image: !is_dir, is_text: false }
}

#[test]
fn starts_ready_with_the_root_expanded() {
    let st = ExplorerState::new();
    assert_eq!(st.status, "就绪");
    assert!(st.is_expanded(""));
    assert!(st.checked.is_empty());
}

#[test]
fn checking_and_unchecking() {
    let mut st = ExplorerState::new();
    st.set_checked("a/b.jpg".to_string(), "b.jpg".to_string(), false, true, false, true);
    assert!(st.is_checked("a/b.jpg"));
    st.set_checked("a/b.jpg".to_string(), "b.jpg".to_string(), false, true, false, true);
    assert_eq!(st.checked.len(), 1);
    st.set_checked("a/b.jpg".to_string(), "b.jpg".to_string(), false, true, false, false);
    assert!(!st.is_checked("a/b.jpg"));
    st.set_checked(String::new(), String::new(), true, false, false, true);
    assert!(!st.is_checked(""));
}

#[test]
fn toggling_twice_restores_the_tree() {
    let mut st = ExplorerState::new();
    st.toggle_expanded("a");
    assert!(st.is_expanded("a"));
    st.toggle_expanded("a");
    assert!(!st.is_expanded("a"));
    assert_eq!(st.expanded_dirs, vec![String::new()]);
}

#[test]
fn clicking_a_directory_row_expands_and_selects_it() {
    let mut st = ExplorerState::new();
    st.expand_and_select(sel("a", "a", true));
    assert!(st.is_expanded("a"));
    assert_eq!(st.selected.as_ref().map(|s| s.path.clone()), Some("a".to_string()));
    st.expand_and_select(sel("a", "a", true));
    assert!(!st.is_expanded("a"));
    st.expand_and_select(sel("a/b.jpg", "b.jpg", false));
    assert_eq!(st.selected.as_ref().map(|s| s.path.clone()), Some("a".to_string()));
    assert!(!st.is_expanded("a/b.jpg"));
}

#[test]
fn clipboard_labels() {
    let mut st = ExplorerState::new();
    st.selected = Some(sel("a/b.jpg", "b.jpg", false));
    st.copy_selected();
    assert_eq!(st.status, "已复制：b.jpg");
    st.selected = Some(sel("", "", true));
    st.cut_selected();
    assert_eq!(st.status, "不能剪切根目录");
    st.uncheck_all();
    st.copy_checked();
    assert_eq!(st.status, "未勾选项目");
}

#[test]
fn forgetting_removes_every_reference() {
    let mut st = ExplorerState::new();
    st.selected = Some(sel("a", "a", true));
    st.viewed = Some("a".to_string());
    st.set_checked("a".to_string(), "a".to_string(), true, false, false, true);
    st.toggle_expanded("a");
    st.toggle_expanded("a/b");
    st.forget_path("a");
    assert!(st.selected.is_none());
    assert!(st.viewed.is_none());
    assert!(!st.is_checked("a"));
    assert!(!st.is_expanded("a"));
    assert!(!st.is_expanded("a/b"));
    assert!(st.is_expanded(""));
}

#[test]
fn batch_marking_reports_its_progress() {
    let mut st = ExplorerState::new();
    assert_eq!(st.begin_batch_mark(), None);
    assert_eq!(st.status, "请先勾选图片");
    st.set_checked("a/dir".to_string(), "dir".to_string(), true, false, false, true);
    st.set_image_checked("a/b.jpg".to_string(), "b.jpg".to_string(), true);
    assert_eq!(st.checked_image_paths(), vec!["a/b.jpg".to_string()]);
    assert_eq!(st.begin_batch_mark(), Some(vec!["a/b.jpg".to_string()]));
    assert!(st.busy);
    assert_eq!(st.status, "正在批量标记 1 张…");
    assert_eq!(st.begin_batch_mark(), None);
    st.finish_batch_mark(Ok((1, 1, Vec::new())));
    assert!(!st.busy);
    assert_eq!(st.status, "已批量标记 1 张");
    st.begin_batch_mark();
    let fail = FailureItem { file: "b.jpg".to_string(), error: "不是文件".to_string() };
    st.finish_batch_mark(Ok((0, 1, vec![fail])));
    assert_eq!(st.status, "已标记 0/1 张，失败 1");
    assert_eq!(st.failure_report.as_ref().map(|r| r.title.clone()), Some("批量标记失败".to_string()));
    st.begin_batch_mark();
    st.finish_batch_mark(Err("x".to_string()));
    assert_eq!(st.status, "批量标记失败：x");
}

#[test]
fn exports_need_a_target_folder() {
    let mut st = ExplorerState::new();
    st.set_image_checked("a/b.jpg".to_string(), "b.jpg".to_string(), true);
    assert_eq!(st.begin_export("dir", "  "), None);
    assert_eq!(st.status, "请填写导出目录");
    st.viewed = Some("a/b.jpg".to_string());
    let started = st.begin_export("current", "");
    assert_eq!(started, Some((vec!["a/b.jpg".to_string()], true, "a".to_string())));
    assert_eq!(st.status, "正在导出 1 张…");
    st.finish_export(true, Ok((1, 1, Vec::new())));
    assert_eq!(st.status, "已导出 1 张");
    assert_eq!(st.refresh, 1);
    assert_eq!(st.begin_export("download", ""), Some((vec!["a/b.jpg".to_string()], false, String::new())));
    st.finish_export(false, Err("磁盘已满".to_string()));
    assert_eq!(st.status, "导出失败：磁盘已满");
    assert_eq!(st.refresh, 1);
}

#[test]
fn check_all_checks_every_listed_entry() {
    let mut st = ExplorerState::new();
    st.set_checked("keep.jpg".to_string(), "keep.jpg".to_string(), false, true, false, true);
    st.selected = Some(sel("d", "d", true));
    assert_eq!(st.check_all_current(), Some("d".to_string()));
    assert!(st.busy);
    let entries = vec![
        FsEntry { name: "a".to_string(), path: "d/a".to_string(), is_dir: true, is_image: false, is_text: false },
        FsEntry { name: "b.jpg".to_string(), path: "d/b.jpg".to_string(), is_dir: false, is_image: true, is_text: false },
    ];
    st.finish_check_all(Ok(entries));
    assert!(!st.busy);
    assert!(st.is_checked("keep.jpg") && st.is_checked("d/a") && st.is_checked("d/b.jpg"));
    assert_eq!(st.status, "已全选当前目录 2 项");
}

#[test]
fn deleting_forgets_the_deleted_entries() {
    let mut st = ExplorerState::new();
    st.set_checked("x.jpg".to_string(), "x.jpg".to_string(), false, true, false, true);
    st.set_checked("y.jpg".to_string(), "y.jpg".to_string(), false, true, false, true);
    st.request_delete_checked();
    let items = st.confirm_delete_selected().unwrap();
    assert_eq!(items.len(), 2);
    st.finish_delete(&items, &vec![Ok(()), Err("占用".to_string())]);
    assert!(!st.is_checked("x.jpg"));
    assert!(st.is_checked("y.jpg"));
    assert!(!st.busy);
    assert!(st.status.starts_with("删除失败（已完成 1 项，y.jpg）："));
}

#[test]
fn moving_forgets_the_old_place() {
    let mut st = ExplorerState::new();
    st.set_checked("a/x.jpg".to_string(), "x.jpg".to_string(), false, true, false, true);
    st.cut_checked();
    assert_eq!(st.status, "已剪切：x.jpg");
    st.selected = Some(sel("b", "b", true));
    let plan = st.paste_clipboard().unwrap();
    assert_eq!(plan.dest_dir, "b");
    assert!(plan.cut);
    st.finish_paste(&plan, &vec![Ok("b/x.jpg".to_string())]);
    assert!(!st.is_checked("a/x.jpg"));
    assert!(st.clipboard.is_none());
    assert_eq!(st.status, "已移动：x.jpg");
    assert!(!st.busy);
}

#[test]
fn renaming_follows_checked_entries() {
    let mut st = ExplorerState::new();
    st.set_checked("a/x.jpg".to_string(), "x.jpg".to_string(), false, true, false, true);
    st.toggle_expanded("a");
    st.selected = Some(sel("a", "a", true));
    st.request_rename();
    st.rename_draft = " c ".to_string();
    assert_eq!(st.confirm_rename(), Some(("a".to_string(), "c".to_string())));
    st.finish_rename("a", Ok("c".to_string()));
    assert!(st.is_checked("c/x.jpg"));
    assert!(!st.is_checked("a/x.jpg"));
    assert!(st.is_expanded("c"));
    assert_eq!(st.status, "已重命名为：c");
}

#[test]
fn creating_a_file_expands_its_folder() {
    let mut st = ExplorerState::new();
    st.selected = Some(sel("d", "d", true));
    st.request_mkfile();
    assert_eq!(st.mkfile_draft, "新建文件.txt");
    assert_eq!(st.confirm_mkfile(), Some(("d".to_string(), "新建文件.txt".to_string())));
    st.finish_mkfile("d", Ok("d/新建文件.txt".to_string()));
    assert!(st.is_expanded("d"));
    assert_eq!(st.status, "已新建文件：新建文件.txt");
    assert_eq!(st.selected.as_ref().map(|s| s.path.clone()), Some("d/新建文件.txt".to_string()));
}

#[test]
fn failure_list_copies_non_empty_files() {
    let items = vec![
        FailureItem { file: "a.jpg".to_string(), error: "x".to_string() },
        FailureItem { file: String::new(), error: "y".to_string() },
        FailureItem { file: "b/c.png".to_string(), error: "z".to_string() },
    ];
    assert_eq!(pic_viewer::explorer::failure_file_list(&items), "a.jpg\nb/c.png");
    assert_eq!(pic_viewer::explorer::failure_file_list(&Vec::new()), "");
}

#[test]
fn clicks_viewing_and_refreshing() {
    let mut st = ExplorerState::new();
    st.select_item(sel("a/b.jpg", "b.jpg", false));
    assert_eq!(st.viewed.as_deref(), Some("a/b.jpg"));
    st.select_item(sel("c", "c", true));
    assert_eq!(st.viewed.as_deref(), Some("a/b.jpg"));
    assert_eq!(st.selected.as_ref().map(|s| s.path.clone()), Some("c".to_string()));
    st.view_image("c/d.png".to_string(), "d.png".to_string());
    assert_eq!(st.viewed.as_deref(), Some("c/d.png"));
    assert!(st.selected.as_ref().unwrap().is_image);
    st.set_checked("c/d.png".to_string(), "d.png".to_string(), false, true, false, true);
    let r = st.refresh;
    st.refresh_tree(false);
    assert_eq!(st.status, "已刷新");
    assert_eq!(st.checked.len(), 1);
    st.refresh_tree(true);
    assert_eq!(st.status, "已刷新，已清空勾选");
    assert!(st.checked.is_empty());
    assert_eq!(st.refresh, r + 2);
}
