use pic_viewer::ops::{
    checked_name, create_plan, delete_check, paste_plan, rename_plan, rename_result, PasteStep,
};

fn ok(s: &str) -> Result<String, String> {
    Ok(s.to_string())
}

fn err(s: &str) -> Result<String, String> {
    Err(s.to_string())
}

#[test]
fn names_are_trimmed_and_checked() {
    assert_eq!(checked_name("  a.txt "), ok("a.txt"));
    assert_eq!(checked_name("a/b"), err("名称不能包含路径分隔符"));
}

#[test]
fn deleting_needs_an_existing_non_root_entry() {
    assert_eq!(delete_check("", ok("/pics/a"), "/pics", true), Err("不能删除根目录".to_string()));
    assert_eq!(delete_check("a", ok("/pics"), "/pics", true), Err("不能删除根目录".to_string()));
    assert_eq!(delete_check("a", ok("/pics/a"), "/pics", false), Err("文件不存在".to_string()));
    assert_eq!(delete_check("a", err("非法路径"), "/pics", true), Err("非法路径".to_string()));
    assert_eq!(delete_check("a", ok("/pics/a"), "/pics", true), Ok(()));
}

#[test]
fn renames_stay_in_the_folder() {
    assert_eq!(rename_plan("a/b.jpg", " c.jpg ", ok("/pics/a/b.jpg"), "/pics", true), ok("/pics/a/c.jpg"));
    assert_eq!(rename_plan("", "c", ok("/pics/a"), "/pics", true), err("不能重命名根目录"));
    assert_eq!(rename_plan("a", "..", ok("/pics/a"), "/pics", true), err("非法名称"));
    assert_eq!(rename_plan("a", "b", ok("/pics"), "/pics", true), err("不能重命名根目录"));
    assert_eq!(rename_plan("a", "b", ok("/pics/a"), "/pics", false), err("文件不存在"));
    assert_eq!(rename_result("/pics/a/b.jpg", "/pics/a/c.jpg", "/pics", false, false), ok("a/c.jpg"));
    assert_eq!(rename_result("/pics/a/b.jpg", "/pics/a/B.jpg", "/pics", true, true), ok("a/b.jpg"));
    assert_eq!(rename_result("/pics/a/b.jpg", "/pics/a/c.jpg", "/pics", true, false), err("目标名称已存在"));
}

#[test]
fn creating_needs_a_folder() {
    assert_eq!(create_plan("new", ok("/pics/a"), true, "/pics"), ok("/pics/a/new"));
    assert_eq!(create_plan("new", ok("/pics/a.txt"), false, "/pics"), err("父路径不是目录"));
    assert_eq!(create_plan("..", ok("/pics/a"), true, "/pics"), err("非法名称"));
    assert_eq!(create_plan("n", err("目标目录不存在"), true, "/pics"), err("目标目录不存在"));
}

#[test]
fn pasting_checks_source_and_target() {
    let from = Ok(("/pics/a/x.jpg".to_string(), true, false));
    assert_eq!(
        paste_plan("a/x.jpg", from.clone(), Ok(("/pics/b".to_string(), true)), false, "/pics"),
        Ok(PasteStep::CopyAs("x.jpg".to_string()))
    );
    assert_eq!(
        paste_plan("a/x.jpg", from.clone(), Ok(("/pics/a".to_string(), true)), true, "/pics"),
        Ok(PasteStep::AlreadyThere("a/x.jpg".to_string()))
    );
    assert_eq!(
        paste_plan("a/x.jpg", from.clone(), Ok(("/pics/a".to_string(), true)), false, "/pics"),
        Ok(PasteStep::CopyAs("x.jpg".to_string()))
    );
    assert_eq!(
        paste_plan("a", Ok(("/pics/a".to_string(), true, true)), Ok(("/pics/a/b".to_string(), true)), false, "/pics"),
        Err("不能粘贴到自身内部".to_string())
    );
    assert_eq!(
        paste_plan("a", Ok(("/pics/a".to_string(), true, true)), Ok(("/pics/a".to_string(), true)), false, "/pics"),
        Err("不能粘贴到自身".to_string())
    );
    assert_eq!(
        paste_plan("", from.clone(), Ok(("/pics/b".to_string(), true)), false, "/pics"),
        Err("不能复制根目录".to_string())
    );
    assert_eq!(
        paste_plan("a/x.jpg", Ok(("/pics/a/x.jpg".to_string(), false, false)), Ok(("/pics/b".to_string(), true)), false, "/pics"),
        Err("源文件不存在".to_string())
    );
    assert_eq!(
        paste_plan("a/x.jpg", from, Ok(("/pics/b.txt".to_string(), false)), false, "/pics"),
        Err("粘贴目标不是目录".to_string())
    );
}
