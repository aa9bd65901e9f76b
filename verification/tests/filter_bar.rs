use pic_viewer::filter_bar::FilterBarState;

#[test]
fn confirm_waits_for_the_index_and_reports() {
    let mut bar = FilterBarState::new();
    assert_eq!(bar.confirm_label(), "读取元数据…");
    assert!(bar.confirm().is_none());
    bar.index_status(3, 10, false);
    assert_eq!(bar.confirm_label(), "读取元数据 3/10");
    bar.index_status(10, 10, true);
    assert_eq!(bar.confirm_label(), "应用筛选");
    bar.star_op = "ge".to_string();
    bar.star_val = "4".to_string();
    bar.tag_query = "cat".to_string();
    let q = bar.confirm().unwrap();
    assert_eq!((q.star_op.as_str(), q.star_val, q.tag_mode.as_str(), q.tag_query.as_str(), q.complement), ("ge", 4, "contains", "cat", false));
    assert!(bar.confirm().is_none());
    let (status, paths) = bar.finish(Ok(vec!["a.jpg".to_string(), "b.jpg".to_string()]));
    assert_eq!(status, "已筛选 2 张");
    assert_eq!(paths.unwrap().len(), 2);
    assert!(!bar.applying);
    bar.star_val = "x".to_string();
    assert_eq!(bar.confirm().unwrap().star_val, 0);
    let (status, paths) = bar.finish(Err("boom".to_string()));
    assert_eq!(status, "筛选失败：boom");
    assert!(paths.is_none());
    assert_eq!(bar.reset(), "已重置筛选");
    assert_eq!(bar.star_op, "any");
    assert_eq!(bar.tag_query, "");
}
