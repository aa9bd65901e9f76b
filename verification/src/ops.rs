//! Checks made before the file operations of the explorer (delete, rename,
//! create, paste), from the paths involved and what the file system reports
//! of them.

use vstd::prelude::*;
use crate::path::{file_name_problem, validate_file_name};
use crate::sandbox::{
    is_under_root, join_path, parent_and_name, path_join, rel_below, target_parent, to_rel, under_root,
};
use crate::text::{chars_eq, chars_of, starts_with, starts_with_chars, string_from_chars, trim, trim_chars};

verus! {

/// A new name as typed: trimmed, and refused with the reason when it is no
/// valid file name.
pub fn checked_name(name: &str) -> (r: Result<String, String>)
    ensures
        match file_name_problem(trim(name@)) {
            None => r matches Ok(n) && n@ == trim(name@),
            Some(m) => r matches Err(e) && e@ == m,
        },
{
    let t = string_from_chars(trim_chars(chars_of(name).as_slice()).as_slice());
    match validate_file_name(t.as_str()) {
        Ok(()) => Ok(t),
        Err(e) => Err(e),
    }
}

fn same(a: &str, b: &str) -> (r: bool)
    ensures
        r == (a@ == b@),
{
    chars_eq(chars_of(a).as_slice(), chars_of(b).as_slice())
}

/// Whether an entry may be deleted: not the root (an empty path or one that
/// resolves to the root), resolvable, and existing.
pub fn delete_check(path: &str, resolved: Result<String, String>, root: &str, exists: bool) -> (r: Result<(), String>)
    ensures
        path@.len() == 0 ==> (r matches Err(e) && e@ == "不能删除根目录"@),
        path@.len() > 0 && resolved is Err ==> (r matches Err(e) && e@ == resolved->Err_0@),
        path@.len() > 0 && resolved is Ok && resolved->Ok_0@ == root@ ==> (r matches Err(e) && e@ == "不能删除根目录"@),
        path@.len() > 0 && resolved is Ok && resolved->Ok_0@ != root@ && !exists ==> (r matches Err(e) && e@ == "文件不存在"@),
        path@.len() > 0 && resolved is Ok && resolved->Ok_0@ != root@ && exists ==> r is Ok,
{
    if path.is_empty() {
        return Err("不能删除根目录".to_owned());
    }
    let target = match resolved {
        Err(e) => return Err(e),
        Ok(t) => t,
    };
    if same(target.as_str(), root) {
        return Err("不能删除根目录".to_owned());
    }
    if !exists {
        return Err("文件不存在".to_owned());
    }
    Ok(())
}

/// Where a rename moves an entry, before the target is looked at: the
/// entry (not the root, resolvable, existing) keeps its folder and gets the
/// trimmed new name, which must be valid and stay below the root.
pub open spec fn rename_target(
    path: Seq<char>,
    new_name: Seq<char>,
    resolved: Result<Seq<char>, Seq<char>>,
    root: Seq<char>,
    exists: bool,
) -> Result<Seq<char>, Seq<char>> {
    if path.len() == 0 {
        Err("不能重命名根目录"@)
    } else if file_name_problem(trim(new_name)) is Some {
        Err(file_name_problem(trim(new_name))->0)
    } else {
        match resolved {
            Err(e) => Err(e),
            Ok(from) => if from == root {
                Err("不能重命名根目录"@)
            } else if !exists {
                Err("文件不存在"@)
            } else {
                match parent_and_name(from) {
                    None => Err("非法路径"@),
                    Some((parent, _)) => {
                        let to = path_join(parent, trim(new_name));
                        if !under_root(to, root) {
                            Err("路径越界"@)
                        } else {
                            Ok(to)
                        }
                    },
                }
            },
        }
    }
}

/// The full path a rename moves an entry to (see [`rename_target`]).
pub fn rename_plan(
    path: &str,
    new_name: &str,
    resolved: Result<String, String>,
    root: &str,
    exists: bool,
) -> (r: Result<String, String>)
    ensures
        match (r, rename_target(path@, new_name@, match resolved { Ok(f) => Ok(f@), Err(e) => Err(e@) }, root@, exists)) {
            (Ok(a), Ok(b)) => a@ == b,
            (Err(a), Err(b)) => a@ == b,
            _ => false,
        },
{
    if path.is_empty() {
        return Err("不能重命名根目录".to_owned());
    }
    let name = match checked_name(new_name) {
        Ok(n) => n,
        Err(e) => return Err(e),
    };
    let from = match resolved {
        Err(e) => return Err(e),
        Ok(f) => f,
    };
    if same(from.as_str(), root) {
        return Err("不能重命名根目录".to_owned());
    }
    if !exists {
        return Err("文件不存在".to_owned());
    }
    let parent = match target_parent(from.as_str()) {
        None => return Err("非法路径".to_owned()),
        Some((p, _)) => p,
    };
    let to = join_path(parent.as_str(), name.as_str());
    if !is_under_root(to.as_str(), root) {
        return Err("路径越界".to_owned());
    }
    Ok(to)
}

/// The relative path a rename reports once the target was looked at: when
/// the target exists it must be the entry itself (a rename that changes
/// nothing), else the entry is moved there.
pub fn rename_result(from: &str, to: &str, root: &str, to_exists: bool, same_file: bool) -> (r: Result<String, String>)
    ensures
        to_exists && same_file ==> (r matches Ok(p) && p@ == rel_below(from@, root@)),
        to_exists && !same_file ==> (r matches Err(e) && e@ == "目标名称已存在"@),
        !to_exists ==> (r matches Ok(p) && p@ == rel_below(to@, root@)),
{
    if to_exists {
        if same_file {
            Ok(to_rel(from, root))
        } else {
            Err("目标名称已存在".to_owned())
        }
    } else {
        Ok(to_rel(to, root))
    }
}

/// Where a new folder or file is created: the trimmed name must be valid,
/// the parent must resolve to a folder, and the result must stay below the
/// root.
pub open spec fn create_target(
    name: Seq<char>,
    parent: Result<Seq<char>, Seq<char>>,
    parent_is_dir: bool,
    root: Seq<char>,
) -> Result<Seq<char>, Seq<char>> {
    if file_name_problem(trim(name)) is Some {
        Err(file_name_problem(trim(name))->0)
    } else {
        match parent {
            Err(e) => Err(e),
            Ok(p) => if !parent_is_dir {
                Err("父路径不是目录"@)
            } else if !under_root(path_join(p, trim(name)), root) {
                Err("路径越界"@)
            } else {
                Ok(path_join(p, trim(name)))
            },
        }
    }
}

/// The full path of a new folder or file (see [`create_target`]); it must
/// not exist yet, which is checked when it is created.
pub fn create_plan(
    name: &str,
    parent: Result<String, String>,
    parent_is_dir: bool,
    root: &str,
) -> (r: Result<String, String>)
    ensures
        match (r, create_target(name@, match parent { Ok(p) => Ok(p@), Err(e) => Err(e@) }, parent_is_dir, root@)) {
            (Ok(a), Ok(b)) => a@ == b,
            (Err(a), Err(b)) => a@ == b,
            _ => false,
        },
{
    let n = match checked_name(name) {
        Ok(n) => n,
        Err(e) => return Err(e),
    };
    let p = match parent {
        Err(e) => return Err(e),
        Ok(p) => p,
    };
    if !parent_is_dir {
        return Err("父路径不是目录".to_owned());
    }
    let dest = join_path(p.as_str(), n.as_str());
    if !is_under_root(dest.as_str(), root) {
        return Err("路径越界".to_owned());
    }
    Ok(dest)
}

/// What a paste does before copying: nothing to do (the relative path of
/// the entry, when a cut entry is already in the target folder), or copy
/// the entry under this file name.
#[derive(Debug, PartialEq, Eq)]
pub enum PasteStep {
    AlreadyThere(String),
    CopyAs(String),
}

/// The checks of a paste: the source (not the root) must resolve and
/// exist, the target must resolve to a folder that is neither the source
/// nor inside it; a cut entry already in the target folder stays; else the
/// entry is copied under its file name.
pub open spec fn paste_step(
    source: Seq<char>,
    from: Result<(Seq<char>, bool, bool), Seq<char>>,
    dest: Result<(Seq<char>, bool), Seq<char>>,
    cut: bool,
    root: Seq<char>,
) -> Result<(bool, Seq<char>), Seq<char>> {
    if source.len() == 0 {
        Err("不能复制根目录"@)
    } else if from is Err {
        Err(from->Err_0)
    } else if !from->Ok_0.1 {
        Err("源文件不存在"@)
    } else if dest is Err {
        Err(dest->Err_0)
    } else {
        paste_between(from->Ok_0.0, from->Ok_0.2, dest->Ok_0.0, dest->Ok_0.1, cut, root)
    }
}

/// The checks of a paste between an existing source and a resolved target.
pub open spec fn paste_between(
    f: Seq<char>,
    is_dir: bool,
    d: Seq<char>,
    d_is_dir: bool,
    cut: bool,
    root: Seq<char>,
) -> Result<(bool, Seq<char>), Seq<char>> {
    if !d_is_dir {
        Err("粘贴目标不是目录"@)
    } else if f == d {
        Err("不能粘贴到自身"@)
    } else if is_dir && starts_with(d, f + seq!['/']) {
        Err("不能粘贴到自身内部"@)
    } else if cut && parent_and_name(f) is Some && parent_and_name(f)->Some_0.0 == d {
        Ok((true, rel_below(f, root)))
    } else if parent_and_name(f) is None {
        Err("非法源路径"@)
    } else {
        Ok((false, parent_and_name(f)->Some_0.1))
    }
}

/// The checks of a paste (see [`paste_step`]); `from` gives the source's
/// full path and whether it exists and is a folder, `dest` the target's
/// full path and whether it is a folder.
pub fn paste_plan(
    source: &str,
    from: Result<(String, bool, bool), String>,
    dest: Result<(String, bool), String>,
    cut: bool,
    root: &str,
) -> (r: Result<PasteStep, String>)
    ensures
        match (r, paste_step(
            source@,
            match from { Ok((f, e, d)) => Ok((f@, e, d)), Err(e) => Err(e@) },
            match dest { Ok((d, i)) => Ok((d@, i)), Err(e) => Err(e@) },
            cut,
            root@,
        )) {
            (Ok(PasteStep::AlreadyThere(p)), Ok((true, q))) => p@ == q,
            (Ok(PasteStep::CopyAs(n)), Ok((false, q))) => n@ == q,
            (Err(a), Err(b)) => a@ == b,
            _ => false,
        },
{
    if source.is_empty() {
        return Err("不能复制根目录".to_owned());
    }
    let (f, exists, is_dir) = match from {
        Err(e) => return Err(e),
        Ok(x) => x,
    };
    if !exists {
        return Err("源文件不存在".to_owned());
    }
    let (d, d_is_dir) = match dest {
        Err(e) => return Err(e),
        Ok(x) => x,
    };
    if !d_is_dir {
        return Err("粘贴目标不是目录".to_owned());
    }
    if same(f.as_str(), d.as_str()) {
        return Err("不能粘贴到自身".to_owned());
    }
    if is_dir {
        let mut fs = chars_of(f.as_str());
        fs.push('/');
        assert(fs@ =~= f@ + seq!['/']);
        if starts_with_chars(chars_of(d.as_str()).as_slice(), fs.as_slice()) {
            return Err("不能粘贴到自身内部".to_owned());
        }
    }
    let pn = target_parent(f.as_str());
    if cut {
        if let Some((p, _)) = &pn {
            if same(p.as_str(), d.as_str()) {
                assert(parent_and_name(f@) is Some && parent_and_name(f@)->Some_0.0 == d@);
                return Ok(PasteStep::AlreadyThere(to_rel(f.as_str(), root)));
            }
        }
    }
    match pn {
        None => Err("非法源路径".to_owned()),
        Some((_, name)) => Ok(PasteStep::CopyAs(name)),
    }
}

} // verus!
