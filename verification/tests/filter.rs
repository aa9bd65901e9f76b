use pic_viewer::filter::{merge_tag_lists, normalize_tag_text, select_rows, star_match, tags_match, MetaRow};

#[test]
fn merge_appends_and_dedups() {
    assert_eq!(merge_tag_lists("aaa", "aaa"), "aaa");
    assert_eq!(merge_tag_lists("AAA", "aaa"), "AAA");
    assert_eq!(merge_tag_lists("aaa", "bbb"), "aaa, bbb");
    assert_eq!(merge_tag_lists("aaa, bbb", "bbb, ccc"), "aaa, bbb, ccc");
    assert_eq!(merge_tag_lists("aaa, aaa", "bbb"), "aaa, bbb");
    assert_eq!(merge_tag_lists("", "aaa"), "aaa");
    assert_eq!(merge_tag_lists("aaa", ""), "aaa");
}

#[test]
fn contains_plain_tag() {
    assert!(tags_match("aaa", "contains", "aaa"));
    assert!(tags_match("foo, aaa, bar", "contains", "aaa"));
    assert!(tags_match("aaabbb", "contains", "aaa"));
}

#[test]
fn contains_strips_utf16_nuls() {
    assert!(tags_match("a\0a\0a\0", "contains", "aaa"));
    assert!(tags_match("foo, a\0a\0a, bar", "contains", "aaa"));
}

#[test]
fn contains_does_not_drop_matching() {
    assert!(!tags_match("bbb", "contains", "aaa"));
    assert!(tags_match("bbb,aaa", "excludes", "zzz"));
    assert!(!tags_match("aaa", "excludes", "aaa"));
}

#[test]
fn star_any_ignores_value() {
    assert!(star_match(5, "any", 0));
    assert!(star_match(0, "eq", 0));
    assert!(!star_match(3, "eq", 0));
}

#[test]
fn merge_splits_on_all_separators_and_ignores_case() {
    assert_eq!(merge_tag_lists("a；b", ""), "a；b");
    assert_eq!(merge_tag_lists("a;b，c、d", "B"), "a, b, c, d");
    assert_eq!(merge_tag_lists("Cat", "cat, DOG"), "Cat, DOG");
}

#[test]
fn normalize_drops_nuls_and_trims() {
    assert_eq!(normalize_tag_text("  a\0b \n"), "ab");
}

#[test]
fn tag_equality_and_star_comparisons() {
    assert!(tags_match("foo, bar", "eq", "bar"));
    assert!(!tags_match("foo, barn", "eq", "bar"));
    assert!(tags_match("anything", "eq", "  "));
    assert!(star_match(2, "lt", 3));
    assert!(star_match(3, "le", 3));
    assert!(star_match(4, "ge", 3));
    assert!(!star_match(3, "gt", 3));
    assert!(star_match(1, "", 5));
}

#[test]
fn select_rows_filters_clamps_and_complements() {
    let rows = vec![
        MetaRow { path: "a.jpg".to_string(), rating: 9, tags: "x, y".to_string() },
        MetaRow { path: "b.jpg".to_string(), rating: -3, tags: "y".to_string() },
        MetaRow { path: "c.jpg".to_string(), rating: 3, tags: "".to_string() },
    ];
    assert_eq!(select_rows(&rows, "eq", 9, "contains", "", false), vec!["a.jpg".to_string()]);
    assert_eq!(
        select_rows(&rows, "any", 0, "contains", "y", false),
        vec!["a.jpg".to_string(), "b.jpg".to_string()]
    );
    assert_eq!(select_rows(&rows, "eq", 0, "contains", "", false), vec!["b.jpg".to_string()]);
    assert_eq!(
        select_rows(&rows, "eq", 0, "contains", "", true),
        vec!["a.jpg".to_string(), "c.jpg".to_string()]
    );
}

#[test]
fn merging_again_changes_nothing() {
    for (a, b) in [("a, B", "b, c"), ("", "x；y"), ("  Tag\0 ", ""), ("p，q、r", "Q, s")] {
        let m = pic_viewer::filter::merge_tag_lists(a, b);
        assert_eq!(pic_viewer::filter::merge_tag_lists(&m, b), m);
        assert_eq!(pic_viewer::filter::merge_tag_lists(&m, ""), m);
    }
}
