use pic_viewer::explorer::SelectedItem;
use pic_viewer::viewer::{
    apply_path_filter, bump_font, clicked_stars, filmstrip_pages, filmstrip_window, gallery_dir, line_count,
    page_of_index, rem_360, rotate_left, rotate_right, rotation_plan, rotation_to_save, step_index,
    viewer_name, Rotation,
};

fn item(path: &str, is_dir: bool) -> SelectedItem {
    SelectedItem { path: path.to_string(), name: String::new(), is_dir, is_image: false, is_text: false }
}

fn strings(v: &[&str]) -> Vec<String> {
    v.iter().map(|s| s.to_string()).collect()
}

#[test]
fn gallery_folder_follows_view_and_selection() {
    assert_eq!(gallery_dir(Some("a/b/c.jpg"), None), "a/b");
    assert_eq!(gallery_dir(None, Some(&item("x/y", true))), "x/y");
    assert_eq!(gallery_dir(None, Some(&item("x/y.txt", false))), "x");
    assert_eq!(gallery_dir(None, None), "");
}

#[test]
fn filters_and_steps_through_the_gallery() {
    let all = strings(&["a", "b", "c"]);
    assert_eq!(apply_path_filter(all.clone(), Some(&strings(&["c", "a"]))), strings(&["a", "c"]));
    assert_eq!(apply_path_filter(all.clone(), None), all);
    assert_eq!(step_index(&all, "b", 1), Some(2));
    assert_eq!(step_index(&all, "b", -1), Some(0));
    assert_eq!(step_index(&all, "c", 1), None);
    assert_eq!(step_index(&all, "a", -1), None);
    assert_eq!(step_index(&all, "z", 1), None);
}

#[test]
fn filmstrip_pages_of_a_hundred() {
    assert_eq!(filmstrip_pages(0), 0);
    assert_eq!(filmstrip_pages(1), 1);
    assert_eq!(filmstrip_pages(100), 1);
    assert_eq!(filmstrip_pages(101), 2);
    let w = filmstrip_window(250, 5);
    assert_eq!((w.page, w.pages, w.start, w.end, w.has_prev, w.has_next), (2, 3, 200, 250, true, false));
    let w = filmstrip_window(250, 0);
    assert_eq!((w.page, w.start, w.end, w.has_prev, w.has_next), (0, 0, 100, false, true));
    let w = filmstrip_window(0, 3);
    assert_eq!((w.page, w.pages, w.start, w.end), (0, 0, 0, 0));
    assert_eq!(page_of_index(199), 1);
    for i in [0usize, 99, 100, 249] {
        let w = filmstrip_window(250, page_of_index(i));
        assert!(w.start <= i && i < w.end);
    }
}

#[test]
fn rotations_stay_in_a_turn() {
    assert_eq!(rem_360(-90), 270);
    assert_eq!(rem_360(450), 90);
    assert_eq!(rem_360(-720), 0);
    assert_eq!(rotate_left(0), 270);
    assert_eq!(rotate_right(270), 0);
    assert_eq!(rotate_right(-100), -10);
    assert_eq!(rotation_to_save(360), None);
    assert_eq!(rotation_to_save(-90), Some(270));
    assert_eq!(rotation_plan(90), Ok(Some(Rotation::Quarter)));
    assert_eq!(rotation_plan(-180), Ok(Some(Rotation::Half)));
    assert_eq!(rotation_plan(630), Ok(Some(Rotation::ThreeQuarters)));
    assert_eq!(rotation_plan(0), Ok(None));
    assert_eq!(rotation_plan(45), Err("只支持按 90° 的倍数旋转".to_string()));
}

#[test]
fn viewer_and_editor_labels() {
    assert_eq!(viewer_name(None), "未选择图片");
    assert_eq!(viewer_name(Some("a/b.jpg")), "b.jpg");
    assert_eq!(line_count(""), 1);
    assert_eq!(line_count("a\nb\n"), 3);
    assert_eq!(bump_font(15, 1), 16);
    assert_eq!(bump_font(28, 1), 28);
    assert_eq!(bump_font(12, -1), 12);
    assert_eq!(bump_font(u32::MAX, 1), 16);
    assert_eq!(clicked_stars(3, 3), 0);
    assert_eq!(clicked_stars(3, 5), 5);
}

#[test]
fn filmstrip_page_buttons() {
    assert_eq!(pic_viewer::viewer::next_filmstrip_page(0, 250), 1);
    assert_eq!(pic_viewer::viewer::next_filmstrip_page(2, 250), 2);
    assert_eq!(pic_viewer::viewer::next_filmstrip_page(9, 250), 2);
    assert_eq!(pic_viewer::viewer::next_filmstrip_page(0, 0), 0);
    assert_eq!(pic_viewer::viewer::next_filmstrip_page(usize::MAX, 150), 1);
    assert_eq!(pic_viewer::viewer::prev_filmstrip_page(0), 0);
    assert_eq!(pic_viewer::viewer::prev_filmstrip_page(3), 2);
}
