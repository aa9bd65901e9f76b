use pic_viewer::editor::TextEditorState;

#[test]
fn editing_resetting_and_saving() {
    let mut ed = TextEditorState::new();
    assert!(!ed.can_write());
    ed.loaded(true, Ok("hello".to_string()));
    assert!(ed.can_write());
    assert!(!ed.is_dirty());
    assert_eq!(ed.begin_save(), None);
    ed.input("hello!".to_string());
    assert!(ed.is_dirty());
    assert_eq!(ed.reset(), Some("已重置未保存的修改".to_string()));
    assert_eq!(ed.draft, "hello");
    ed.input("bye".to_string());
    let content = ed.begin_save().unwrap();
    assert_eq!(content, "bye");
    assert!(ed.saving);
    assert!(!ed.can_write());
    assert_eq!(ed.reset(), None);
    assert_eq!(ed.finish_save(content, "a.txt", Ok(())), "已保存：a.txt");
    assert!(!ed.is_dirty());
    ed.input("x".to_string());
    let content = ed.begin_save().unwrap();
    assert_eq!(ed.finish_save(content, "a.txt", Err("disk full".to_string())), "保存失败：disk full");
    assert!(ed.is_dirty());
    assert!(!ed.saving);
}

#[test]
fn a_failed_load_blocks_writing() {
    let mut ed = TextEditorState::new();
    ed.loaded(true, Err("too large".to_string()));
    assert_eq!(ed.draft, "");
    assert!(!ed.can_write());
    ed.input("x".to_string());
    assert_eq!(ed.begin_save(), None);
}
