//! Keeping every path inside the hosted root: relative paths are checked
//! lexically, joined under the root, and the canonical forms that the file
//! system reports are held to stay under it.

use vstd::prelude::*;
use crate::text::{
    append_chars, chars_eq, chars_of, contains_char, decimal, decimal_chars, rfind, rfind_char,
    split_chars, split_on, starts_with, starts_with_chars, string_from_chars, sub_chars,
};
use crate::path::eq_ignore_ascii_case_chars;

verus! {

/// `p` is the root or lies below it (compared by whole `/` segments).
pub open spec fn under_root(p: Seq<char>, root: Seq<char>) -> bool {
    ||| p == root
    ||| (root.len() > 0 && root.last() == '/' && starts_with(p, root))
    ||| starts_with(p, root + seq!['/'])
}

/// `PathBuf::push` of a relative or absolute name onto a directory.
pub open spec fn path_join(dir: Seq<char>, name: Seq<char>) -> Seq<char> {
    if name.len() > 0 && name[0] == '/' {
        name
    } else if dir.len() == 0 {
        name
    } else if dir.last() == '/' {
        dir + name
    } else {
        dir + seq!['/'] + name
    }
}

/// The part of `full` below `root`, with `\` turned into `/`; empty when
/// `full` is not under `root` or is the root itself.
pub open spec fn rel_below(full: Seq<char>, root: Seq<char>) -> Seq<char> {
    let rest = if full == root {
        Seq::<char>::empty()
    } else if root.len() > 0 && root.last() == '/' && starts_with(full, root) {
        full.subrange(root.len() as int, full.len() as int)
    } else if starts_with(full, root + seq!['/']) {
        full.subrange(root.len() as int + 1, full.len() as int)
    } else {
        Seq::<char>::empty()
    };
    rest.map_values(|c: char| if c == '\\' { '/' } else { c })
}

/// `s` with leading `/` removed.
pub open spec fn trim_leading_slashes(s: Seq<char>) -> Seq<char>
    decreases s.len(),
{
    if s.len() > 0 && s[0] == '/' {
        trim_leading_slashes(s.drop_first())
    } else {
        s
    }
}

/// A relative path is acceptable when, after its leading `/` are dropped, it
/// holds no NUL and no `..` segment.
pub open spec fn rel_acceptable(rel: Seq<char>) -> bool {
    let t = trim_leading_slashes(rel);
    !t.contains('\0') && !split_on(t, '/').contains(seq!['.', '.'])
}

/// Where a relative path points: the root itself, or the root joined with the
/// path (leading `/` dropped); an error for unacceptable paths.
pub open spec fn target_of(root: Seq<char>, rel: Seq<char>) -> Result<Seq<char>, Seq<char>> {
    let t = trim_leading_slashes(rel);
    if !rel_acceptable(rel) {
        Err("非法路径"@)
    } else if t.len() == 0 {
        Ok(root)
    } else {
        Ok(path_join(root, t))
    }
}

/// `s` with trailing `/` removed.
pub open spec fn trim_trailing_slashes(s: Seq<char>) -> Seq<char>
    decreases s.len(),
{
    if s.len() > 0 && s.last() == '/' {
        trim_trailing_slashes(s.drop_last())
    } else {
        s
    }
}

/// `s` without trailing `/` and trailing `/.` segments (which
/// `Path::components` normalizes away).
pub open spec fn trim_path_tail(s: Seq<char>) -> Seq<char>
    decreases s.len(),
{
    if s.len() > 0 && s.last() == '/' {
        trim_path_tail(s.drop_last())
    } else if s.len() >= 2 && s.last() == '.' && s[s.len() - 2] == '/' {
        trim_path_tail(s.drop_last())
    } else {
        s
    }
}

/// Parent directory and file name of a path (`Path::parent`, `Path::file_name`),
/// after trailing `/` and `/.` are dropped; none when the last segment is
/// empty, `.` or `..`.
pub open spec fn parent_and_name(p: Seq<char>) -> Option<(Seq<char>, Seq<char>)> {
    let t = trim_path_tail(p);
    let k = rfind(t, '/');
    let name = t.subrange(k + 1, t.len() as int);
    if name.len() == 0 || name == seq!['.'] || name == seq!['.', '.'] {
        None
    } else if k == 0 {
        Some((seq!['/'], name))
    } else if k < 0 {
        Some((Seq::<char>::empty(), name))
    } else {
        Some((t.subrange(0, k), name))
    }
}

/// Outcome of resolving a relative path, given what the file system reports:
/// `found` for the target (none when it does not exist, else its canonical
/// form or the error of canonicalizing it) and `parent_found` likewise for
/// its parent directory (consulted only when the target does not exist).
pub open spec fn resolution(
    root: Seq<char>,
    rel: Seq<char>,
    found: Option<Result<Seq<char>, Seq<char>>>,
    parent_found: Option<Result<Seq<char>, Seq<char>>>,
) -> Result<Seq<char>, Seq<char>> {
    match target_of(root, rel) {
        Err(e) => Err(e),
        Ok(target) => match found {
            Some(Ok(canon)) => if under_root(canon, root) {
                Ok(canon)
            } else {
                Err("路径越界"@)
            },
            Some(Err(e)) => Err(e),
            None => match parent_and_name(target) {
                None => Err("非法路径"@),
                Some((_, name)) => match parent_found {
                    None => Err("目标目录不存在"@),
                    Some(Err(e)) => Err(e),
                    Some(Ok(cp)) => if under_root(cp, root) {
                        Ok(path_join(cp, name))
                    } else {
                        Err("路径越界"@)
                    },
                },
            },
        },
    }
}

/// Stem and extension (with its dot) of a name, as `Path::file_stem` and
/// `Path::extension` split it; the whole name and no extension when it has
/// no proper file name.
pub open spec fn stem_and_ext(name: Seq<char>) -> (Seq<char>, Seq<char>) {
    match parent_and_name(name) {
        None => (name, Seq::<char>::empty()),
        Some((_, f)) => {
            let k = rfind(f, '.');
            if k <= 0 {
                (f, Seq::<char>::empty())
            } else {
                (f.subrange(0, k), seq!['.'] + f.subrange(k + 1, f.len() as int))
            }
        },
    }
}

/// The `i`-th name tried for a copy: the name itself, then `stem (i)ext` for
/// `i` in 1..10000, then `stem-copy ext`.
pub open spec fn dest_name(name: Seq<char>, i: nat) -> Seq<char> {
    let (stem, ext) = stem_and_ext(name);
    if i == 0 {
        name
    } else if i < 10000 {
        stem + seq![' ', '('] + decimal(i) + seq![')'] + ext
    } else {
        stem + "-copy"@ + ext
    }
}

/// MIME type for a path, from its lower-cased extension.
pub open spec fn mime_of_ext(ext: Seq<char>) -> Seq<char> {
    if ext == "jpg"@ || ext == "jpeg"@ {
        "image/jpeg"@
    } else if ext == "png"@ {
        "image/png"@
    } else if ext == "gif"@ {
        "image/gif"@
    } else if ext == "webp"@ {
        "image/webp"@
    } else if ext == "bmp"@ {
        "image/bmp"@
    } else if ext == "svg"@ {
        "image/svg+xml"@
    } else if ext == "avif"@ {
        "image/avif"@
    } else if ext == "ico"@ {
        "image/x-icon"@
    } else if ext == "tif"@ || ext == "tiff"@ {
        "image/tiff"@
    } else {
        "application/octet-stream"@
    }
}

fn under_root_chars(p: &[char], root: &[char]) -> (r: bool)
    ensures
        r == under_root(p@, root@),
{
    if chars_eq(p, root) {
        return true;
    }
    if root.len() > 0 && root[root.len() - 1] == '/' && starts_with_chars(p, root) {
        return true;
    }
    let mut rs: Vec<char> = sub_chars(root, 0, root.len());
    rs.push('/');
    assert(rs@ =~= root@ + seq!['/']);
    starts_with_chars(p, rs.as_slice())
}

/// `p` is the root or lies below it.
pub fn is_under_root(p: &str, root: &str) -> (r: bool)
    ensures
        r == under_root(p@, root@),
{
    under_root_chars(chars_of(p).as_slice(), chars_of(root).as_slice())
}

fn path_join_chars(dir: &[char], name: &[char]) -> (r: Vec<char>)
    ensures
        r@ == path_join(dir@, name@),
{
    if name.len() > 0 && name[0] == '/' {
        return sub_chars(name, 0, name.len());
    }
    if dir.len() == 0 {
        return sub_chars(name, 0, name.len());
    }
    let mut r = sub_chars(dir, 0, dir.len());
    assert(r@ =~= dir@);
    if dir[dir.len() - 1] != '/' {
        r.push('/');
    }
    append_chars(&mut r, name);
    r
}

/// `PathBuf::push` of a name onto a directory.
pub fn join_path(dir: &str, name: &str) -> (r: String)
    ensures
        r@ == path_join(dir@, name@),
{
    let j = path_join_chars(chars_of(dir).as_slice(), chars_of(name).as_slice());
    string_from_chars(j.as_slice())
}

/// The relative form of a full path under the root (`/`-separated); empty
/// for the root itself and for paths outside it.
pub fn to_rel(full: &str, root: &str) -> (r: String)
    ensures
        r@ == rel_below(full@, root@),
{
    let f = chars_of(full);
    let rt = chars_of(root);
    let rest: Vec<char> = if chars_eq(f.as_slice(), rt.as_slice()) {
        Vec::new()
    } else if rt.len() > 0 && rt[rt.len() - 1] == '/' && starts_with_chars(f.as_slice(), rt.as_slice()) {
        sub_chars(f.as_slice(), rt.len(), f.len())
    } else {
        let mut rs = sub_chars(rt.as_slice(), 0, rt.len());
        rs.push('/');
        assert(rs@ =~= rt@ + seq!['/']);
        if starts_with_chars(f.as_slice(), rs.as_slice()) {
            assert(rs@.len() == rt@.len() + 1);
            assert(rs@.len() <= f@.len());
            assert(rt.len() + 1 <= f.len());
            sub_chars(f.as_slice(), rt.len() + 1, f.len())
        } else {
            Vec::new()
        }
    };
    let mut out: Vec<char> = Vec::new();
    let mut i: usize = 0;
    while i < rest.len()
        invariant
            i <= rest.len(),
            out@ == rest@.take(i as int).map_values(|c: char| if c == '\\' { '/' } else { c }),
        decreases rest.len() - i,
    {
        let c = rest[i];
        out.push(if c == '\\' { '/' } else { c });
        i = i + 1;
        assert(out@ =~= rest@.take(i as int).map_values(|c: char| if c == '\\' { '/' } else { c }));
    }
    assert(rest@.take(i as int) =~= rest@);
    string_from_chars(out.as_slice())
}

fn trim_leading_slashes_chars(s: &[char]) -> (r: Vec<char>)
    ensures
        r@ == trim_leading_slashes(s@),
{
    let mut a: usize = 0;
    assert(s@.subrange(0, s@.len() as int) =~= s@);
    while a < s.len() && s[a] == '/'
        invariant
            a <= s.len(),
            trim_leading_slashes(s@) == trim_leading_slashes(s@.subrange(a as int, s@.len() as int)),
        decreases s.len() - a,
    {
        assert(s@.subrange(a as int, s@.len() as int).drop_first() =~= s@.subrange(a + 1, s@.len() as int));
        a = a + 1;
    }
    proof {
        assert(s@.subrange(0, s@.len() as int) =~= s@);
    }
    sub_chars(s, a, s.len())
}

fn has_dotdot_segment(t: &[char]) -> (r: bool)
    ensures
        r == split_on(t@, '/').contains(seq!['.', '.']),
{
    let pieces = split_chars(t, '/');
    let dd = ['.', '.'];
    assert(dd@ =~= seq!['.', '.']);
    let mut i: usize = 0;
    while i < pieces.len()
        invariant
            i <= pieces.len(),
            pieces@.len() == split_on(t@, '/').len(),
            forall|k: int| 0 <= k < pieces@.len() ==> (#[trigger] pieces@[k])@ == split_on(t@, '/')[k],
            dd@ == seq!['.', '.'],
            forall|k: int| 0 <= k < i ==> split_on(t@, '/')[k] != seq!['.', '.'],
        decreases pieces.len() - i,
    {
        if chars_eq(pieces[i].as_slice(), &dd) {
            assert(split_on(t@, '/')[i as int] == seq!['.', '.']);
            return true;
        }
        i = i + 1;
    }
    false
}

fn target_chars(root: &[char], rel: &[char]) -> (r: Result<Vec<char>, String>)
    ensures
        match (r, target_of(root@, rel@)) {
            (Ok(v), Ok(t)) => v@ == t,
            (Err(e), Err(m)) => e@ == m,
            _ => false,
        },
{
    let t = trim_leading_slashes_chars(rel);
    if contains_char(t.as_slice(), '\0') || has_dotdot_segment(t.as_slice()) {
        return Err("非法路径".to_owned());
    }
    if t.len() == 0 {
        return Ok(sub_chars(root, 0, root.len()));
    }
    Ok(path_join_chars(root, t.as_slice()))
}

/// Where a relative path points under the root (see [`target_of`]).
pub fn resolve_target(root: &str, rel: &str) -> (r: Result<String, String>)
    ensures
        match (r, target_of(root@, rel@)) {
            (Ok(v), Ok(t)) => v@ == t,
            (Err(e), Err(m)) => e@ == m,
            _ => false,
        },
{
    match target_chars(chars_of(root).as_slice(), chars_of(rel).as_slice()) {
        Ok(v) => Ok(string_from_chars(v.as_slice())),
        Err(e) => Err(e),
    }
}

fn trim_path_tail_chars(s: &[char]) -> (r: Vec<char>)
    ensures
        r@ == trim_path_tail(s@),
{
    let mut b: usize = s.len();
    assert(s@.subrange(0, s@.len() as int) =~= s@);
    while b > 0 && (s[b - 1] == '/' || (b >= 2 && s[b - 1] == '.' && s[b - 2] == '/'))
        invariant
            b <= s.len(),
            trim_path_tail(s@) == trim_path_tail(s@.subrange(0, b as int)),
        decreases b,
    {
        assert(s@.subrange(0, b as int).drop_last() =~= s@.subrange(0, b - 1));
        b = b - 1;
    }
    sub_chars(s, 0, b)
}

fn parent_and_name_chars(p: &[char]) -> (r: Option<(Vec<char>, Vec<char>)>)
    ensures
        match (r, parent_and_name(p@)) {
            (Some((a, b)), Some((x, y))) => a@ == x && b@ == y,
            (None, None) => true,
            _ => false,
        },
{
    let t = trim_path_tail_chars(p);
    let k = rfind_char(t.as_slice(), '/');
    let start: usize = match k {
        Some(i) => i + 1,
        None => 0,
    };
    let name = sub_chars(t.as_slice(), start, t.len());
    let dot = ['.'];
    let dd = ['.', '.'];
    assert(dot@ =~= seq!['.']);
    assert(dd@ =~= seq!['.', '.']);
    if name.len() == 0 || chars_eq(name.as_slice(), &dot) || chars_eq(name.as_slice(), &dd) {
        return None;
    }
    match k {
        Some(i) => {
            if i == 0 {
                let mut s = Vec::new();
                s.push('/');
                assert(s@ =~= seq!['/']);
                Some((s, name))
            } else {
                Some((sub_chars(t.as_slice(), 0, i), name))
            }
        },
        None => Some((Vec::new(), name)),
    }
}

/// Parent directory and file name of a path (see [`parent_and_name`]).
pub fn target_parent(p: &str) -> (r: Option<(String, String)>)
    ensures
        match (r, parent_and_name(p@)) {
            (Some((a, b)), Some((x, y))) => a@ == x && b@ == y,
            (None, None) => true,
            _ => false,
        },
{
    match parent_and_name_chars(chars_of(p).as_slice()) {
        Some((a, b)) => Some((string_from_chars(a.as_slice()), string_from_chars(b.as_slice()))),
        None => None,
    }
}

/// Resolves a relative path inside the root, given what the file system
/// reports of the target and of its parent (see [`resolution`]).
pub fn resolve_path(
    root: &str,
    rel: &str,
    found: Option<Result<String, String>>,
    parent_found: Option<Result<String, String>>,
) -> (r: Result<String, String>)
    ensures
        match (r, resolution(
            root@,
            rel@,
            match found {
                None => None,
                Some(Ok(c)) => Some(Ok(c@)),
                Some(Err(e)) => Some(Err(e@)),
            },
            match parent_found {
                None => None,
                Some(Ok(c)) => Some(Ok(c@)),
                Some(Err(e)) => Some(Err(e@)),
            },
        )) {
            (Ok(v), Ok(t)) => v@ == t,
            (Err(e), Err(m)) => e@ == m,
            _ => false,
        },
{
    let rt = chars_of(root);
    let target = match target_chars(rt.as_slice(), chars_of(rel).as_slice()) {
        Ok(t) => t,
        Err(e) => return Err(e),
    };
    match found {
        Some(Ok(canon)) => {
            if under_root_chars(chars_of(canon.as_str()).as_slice(), rt.as_slice()) {
                Ok(canon)
            } else {
                Err("路径越界".to_owned())
            }
        },
        Some(Err(e)) => Err(e),
        None => match parent_and_name_chars(target.as_slice()) {
            None => Err("非法路径".to_owned()),
            Some((_, name)) => match parent_found {
                None => Err("目标目录不存在".to_owned()),
                Some(Err(e)) => Err(e),
                Some(Ok(cp)) => {
                    let cv = chars_of(cp.as_str());
                    if under_root_chars(cv.as_slice(), rt.as_slice()) {
                        let j = path_join_chars(cv.as_slice(), name.as_slice());
                        Ok(string_from_chars(j.as_slice()))
                    } else {
                        Err("路径越界".to_owned())
                    }
                },
            },
        },
    }
}

fn stem_and_ext_chars(name: &[char]) -> (r: (Vec<char>, Vec<char>))
    ensures
        r.0@ == stem_and_ext(name@).0,
        r.1@ == stem_and_ext(name@).1,
{
    match parent_and_name_chars(name) {
        None => (sub_chars(name, 0, name.len()), Vec::new()),
        Some((_, f)) => {
            match rfind_char(f.as_slice(), '.') {
                None => (f, Vec::new()),
                Some(k) => {
                    if k == 0 {
                        (f, Vec::new())
                    } else {
                        let stem = sub_chars(f.as_slice(), 0, k);
                        let mut ext = Vec::new();
                        ext.push('.');
                        let tail = sub_chars(f.as_slice(), k + 1, f.len());
                        append_chars(&mut ext, tail.as_slice());
                        assert(ext@ =~= seq!['.'] + f@.subrange(k + 1, f@.len() as int));
                        (stem, ext)
                    }
                },
            }
        },
    }
}

fn dest_name_chars(name: &[char], stem: &Vec<char>, ext: &Vec<char>, i: u64) -> (r: Vec<char>)
    requires
        stem@ == stem_and_ext(name@).0,
        ext@ == stem_and_ext(name@).1,
    ensures
        r@ == dest_name(name@, i as nat),
{
    if i == 0 {
        return sub_chars(name, 0, name.len());
    }
    let mut r = sub_chars(stem.as_slice(), 0, stem.len());
    if i < 10000 {
        r.push(' ');
        r.push('(');
        let d = decimal_chars(i);
        append_chars(&mut r, d.as_slice());
        r.push(')');
        append_chars(&mut r, ext.as_slice());
        assert(r@ =~= stem@ + seq![' ', '('] + decimal(i as nat) + seq![')'] + ext@);
    } else {
        let c = chars_of("-copy");
        append_chars(&mut r, c.as_slice());
        append_chars(&mut r, ext.as_slice());
    }
    r
}

/// The first of the copy names ([`dest_name`]) that is not among `taken`,
/// with the last one used whatever `taken` holds.
pub open spec fn first_free_index(name: Seq<char>, taken: Seq<Seq<char>>, i: nat) -> nat
    decreases 10000 - i,
{
    if i >= 10000 || !taken.contains(dest_name(name, i)) {
        i
    } else {
        first_free_index(name, taken, i + 1)
    }
}

fn taken_contains(taken: &Vec<String>, x: &[char]) -> (r: bool)
    ensures
        r == taken@.map_values(|s: String| s@).contains(x@),
{
    let ghost tv = taken@.map_values(|s: String| s@);
    let mut j: usize = 0;
    while j < taken.len()
        invariant
            j <= taken.len(),
            tv == taken@.map_values(|s: String| s@),
            forall|k: int| 0 <= k < j ==> tv[k] != x@,
        decreases taken.len() - j,
    {
        if chars_eq(chars_of(taken[j].as_str()).as_slice(), x) {
            assert(tv[j as int] == x@);
            return true;
        }
        j = j + 1;
    }
    assert(!tv.contains(x@)) by {
        if tv.contains(x@) {
            let k = choose|k: int| 0 <= k < tv.len() && tv[k] == x@;
            assert(tv[k] != x@);
        }
    }
    false
}

/// A destination for a copy of `name` in `dir`: the name itself when it is
/// free, else `stem (1)ext`, `stem (2)ext`, … up to 9999, else
/// `stem-copyext`; `taken` lists the names already present in `dir`.
pub fn unique_dest(dir: &str, name: &str, taken: &Vec<String>) -> (r: String)
    ensures
        r@ == path_join(dir@, dest_name(name@, first_free_index(name@, taken@.map_values(|s: String| s@), 0))),
{
    let n = chars_of(name);
    let (stem, ext) = stem_and_ext_chars(n.as_slice());
    let ghost tv = taken@.map_values(|s: String| s@);
    let mut i: u64 = 0;
    loop
        invariant
            i <= 10000,
            tv == taken@.map_values(|s: String| s@),
            stem@ == stem_and_ext(n@).0,
            ext@ == stem_and_ext(n@).1,
            n@ == name@,
            first_free_index(name@, tv, 0) == first_free_index(name@, tv, i as nat),
        decreases 10000 - i,
    {
        let cand = dest_name_chars(n.as_slice(), &stem, &ext, i);
        if i >= 10000 || !taken_contains(taken, cand.as_slice()) {
            let j = path_join_chars(chars_of(dir).as_slice(), cand.as_slice());
            return string_from_chars(j.as_slice());
        }
        i = i + 1;
    }
}

/// MIME type for the path's extension (ASCII case ignored), else
/// `application/octet-stream`.
pub open spec fn mime_of_path(path: Seq<char>) -> Seq<char> {
    match parent_and_name(path) {
        None => "application/octet-stream"@,
        Some((_, f)) => {
            let k = rfind(f, '.');
            if k <= 0 {
                "application/octet-stream"@
            } else {
                mime_of_ext(f.subrange(k + 1, f.len() as int).map_values(|c: char| crate::text::ascii_lower(c)))
            }
        },
    }
}

fn lower_chars(s: &[char]) -> (r: Vec<char>)
    ensures
        r@ == s@.map_values(|c: char| crate::text::ascii_lower(c)),
{
    let mut r: Vec<char> = Vec::new();
    let mut i: usize = 0;
    while i < s.len()
        invariant
            i <= s.len(),
            r@ == s@.take(i as int).map_values(|c: char| crate::text::ascii_lower(c)),
        decreases s.len() - i,
    {
        r.push(crate::text::ascii_lower_char(s[i]));
        i = i + 1;
        assert(r@ =~= s@.take(i as int).map_values(|c: char| crate::text::ascii_lower(c)));
    }
    assert(s@.take(i as int) =~= s@);
    r
}

fn is_lit(s: &[char], lit: &str) -> (r: bool)
    ensures
        r == (s@ == lit@),
{
    chars_eq(s, chars_of(lit).as_slice())
}

/// MIME type for a path's extension (see [`mime_of_path`]).
pub fn mime_for(path: &str) -> (r: &'static str)
    ensures
        r@ == mime_of_path(path@),
{
    let p = chars_of(path);
    let f = match parent_and_name_chars(p.as_slice()) {
        None => return "application/octet-stream",
        Some((_, f)) => f,
    };
    let k = match rfind_char(f.as_slice(), '.') {
        None => return "application/octet-stream",
        Some(k) => k,
    };
    if k == 0 {
        return "application/octet-stream";
    }
    let e = lower_chars(sub_chars(f.as_slice(), k + 1, f.len()).as_slice());
    let e = e.as_slice();
    if is_lit(e, "jpg") || is_lit(e, "jpeg") {
        "image/jpeg"
    } else if is_lit(e, "png") {
        "image/png"
    } else if is_lit(e, "gif") {
        "image/gif"
    } else if is_lit(e, "webp") {
        "image/webp"
    } else if is_lit(e, "bmp") {
        "image/bmp"
    } else if is_lit(e, "svg") {
        "image/svg+xml"
    } else if is_lit(e, "avif") {
        "image/avif"
    } else if is_lit(e, "ico") {
        "image/x-icon"
    } else if is_lit(e, "tif") || is_lit(e, "tiff") {
        "image/tiff"
    } else {
        "application/octet-stream"
    }
}

} // verus!
