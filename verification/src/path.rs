//! Relative paths inside the hosted directory: names, parents, joins,
//! renames and URLs.

use vstd::prelude::*;
use vstd::utf8::encode_utf8;
use crate::text::{
    ascii_lower, ascii_lower_char, append_chars, chars_eq, chars_of, contains_char, eq_ignore_ascii_case,
    is_control, is_control_char, join_chars, join_with, non_empty, rfind, rfind_char, split_chars,
    split_on, starts_with, starts_with_chars, string_from_chars, sub_chars, trim, trim_chars,
};

verus! {

/// Bytes that URL encoding leaves as they are: ASCII alphanumerics and `-_.~`.
pub open spec fn is_unreserved(b: u8) -> bool {
    ||| (0x30 <= b <= 0x39)
    ||| (0x41 <= b <= 0x5A)
    ||| (0x61 <= b <= 0x7A)
    ||| b == 0x2D
    ||| b == 0x2E
    ||| b == 0x5F
    ||| b == 0x7E
}

/// Upper-case hexadecimal digit for a value below 16.
pub open spec fn hex_upper(d: u8) -> char {
    if d < 10 {
        (0x30 + d) as char
    } else {
        (0x41 - 10 + d) as char
    }
}

/// Percent-encoding of bytes: unreserved bytes stay, every other byte `b`
/// becomes `%` and two upper-case hex digits.
pub open spec fn percent_encode(b: Seq<u8>) -> Seq<char>
    decreases b.len(),
{
    if b.len() == 0 {
        Seq::<char>::empty()
    } else {
        let x = b.last();
        percent_encode(b.drop_last()) + if is_unreserved(x) {
            seq![x as char]
        } else {
            seq!['%', hex_upper(x / 16), hex_upper(x % 16)]
        }
    }
}

/// URL encoding of a string: percent-encoding of its UTF-8 bytes.
pub open spec fn url_encoded(s: Seq<char>) -> Seq<char> {
    percent_encode(encode_utf8(s))
}

/// `urlencoding::encode`: percent-encodes every UTF-8 byte of `s` except ASCII
/// alphanumerics and `-`, `.`, `_`, `~`, with upper-case hex digits.
#[verifier::external_body]
fn url_encode(s: &str) -> (r: String)
    ensures
        r@ == url_encoded(s@),
{
    urlencoding::encode(s).into_owned()
}

/// The relative path with each non-empty `/`-separated segment URL-encoded,
/// joined again with `/`.
pub open spec fn encoded_rel(rel: Seq<char>) -> Seq<char> {
    join_with(non_empty(split_on(rel, '/')).map_values(|p: Seq<char>| url_encoded(p)), seq!['/'])
}

/// Last `/`-separated segment of a path (the whole path when it has no `/`).
pub open spec fn last_segment(path: Seq<char>) -> Seq<char> {
    path.subrange(rfind(path, '/') + 1, path.len() as int)
}

/// Everything before the last `/` (empty when there is none).
pub open spec fn parent_of(path: Seq<char>) -> Seq<char> {
    if rfind(path, '/') < 0 {
        Seq::<char>::empty()
    } else {
        path.subrange(0, rfind(path, '/'))
    }
}

/// `dir/name`, or `name` alone when `dir` is empty.
pub open spec fn joined(dir: Seq<char>, name: Seq<char>) -> Seq<char> {
    if dir.len() == 0 {
        name
    } else {
        dir + seq!['/'] + name
    }
}

/// The image extensions that the browser shows, lower case.
pub open spec fn image_exts() -> Seq<Seq<char>> {
    seq![
        "jpg"@,
        "jpeg"@,
        "png"@,
        "gif"@,
        "webp"@,
        "bmp"@,
        "svg"@,
        "avif"@,
        "ico"@,
        "tif"@,
        "tiff"@,
    ]
}

/// `ext` equals one of the image extensions, ignoring ASCII case.
pub open spec fn is_image_ext(ext: Seq<char>) -> bool {
    exists|i: int| 0 <= i < image_exts().len() && eq_ignore_ascii_case(ext, #[trigger] image_exts()[i])
}

/// A name is an image name when it has a `.` and the text after the last `.`
/// is an image extension.
pub open spec fn image_name(name: Seq<char>) -> bool {
    rfind(name, '.') >= 0 && is_image_ext(name.subrange(rfind(name, '.') + 1, name.len() as int))
}

/// What is wrong with a proposed file name, as the message shown to the user.
pub open spec fn file_name_problem(name: Seq<char>) -> Option<Seq<char>> {
    let t = trim(name);
    if t.len() == 0 {
        Some("名称不能为空"@)
    } else if t == seq!['.'] || t == seq!['.', '.'] {
        Some("非法名称"@)
    } else if t.contains('/') || t.contains('\\') || t.contains('\0') {
        Some("名称不能包含路径分隔符"@)
    } else if exists|i: int| 0 <= i < t.len() && is_control(#[trigger] t[i]) {
        Some("名称包含非法字符"@)
    } else {
        None
    }
}

/// `path` after renaming `old` to `new`: `old` itself becomes `new`, anything
/// below `old/` moves below `new/`, other paths stay.
pub open spec fn rewritten(path: Seq<char>, old: Seq<char>, new: Seq<char>) -> Seq<char> {
    if path == old {
        new
    } else if old.len() > 0 && starts_with(path, old) && old.len() < path.len()
        && path[old.len() as int] == '/' {
        new + path.subrange(old.len() as int, path.len() as int)
    } else {
        path
    }
}

/// ASCII-case-insensitive equality of two character slices.
pub fn eq_ignore_ascii_case_chars(a: &[char], b: &[char]) -> (r: bool)
    ensures
        r == eq_ignore_ascii_case(a@, b@),
{
    if a.len() != b.len() {
        return false;
    }
    let mut i: usize = 0;
    while i < a.len()
        invariant
            i <= a.len(),
            a.len() == b.len(),
            forall|j: int| 0 <= j < i ==> ascii_lower(#[trigger] a@[j]) == ascii_lower(b@[j]),
        decreases a.len() - i,
    {
        if ascii_lower_char(a[i]) != ascii_lower_char(b[i]) {
            return false;
        }
        i = i + 1;
    }
    true
}

fn is_image_ext_chars(ext: &[char]) -> (r: bool)
    ensures
        r == is_image_ext(ext@),
{
    let exts: [&str; 11] = ["jpg", "jpeg", "png", "gif", "webp", "bmp", "svg", "avif", "ico", "tif", "tiff"];
    let ghost list = image_exts();
    let mut i: usize = 0;
    while i < 11
        invariant
            i <= 11,
            list == image_exts(),
            forall|k: int| 0 <= k < 11 ==> (#[trigger] exts@[k])@ == list[k],
            forall|k: int| 0 <= k < i ==> !eq_ignore_ascii_case(ext@, #[trigger] list[k]),
        decreases 11 - i,
    {
        let e = chars_of(exts[i]);
        if eq_ignore_ascii_case_chars(ext, e.as_slice()) {
            return true;
        }
        i = i + 1;
    }
    false
}

/// The name has an image extension (compared ignoring ASCII case).
pub fn is_image_name(name: &str) -> (r: bool)
    ensures
        r == image_name(name@),
{
    let v = chars_of(name);
    is_image_name_chars(v.as_slice())
}

pub fn is_image_name_chars(v: &[char]) -> (r: bool)
    ensures
        r == image_name(v@),
{
    match rfind_char(v, '.') {
        None => false,
        Some(i) => {
            assert(i < v.len());
            let ext = sub_chars(v, i + 1, v.len());
            is_image_ext_chars(ext.as_slice())
        },
    }
}

/// Everything before the last `/`, or the empty string.
pub fn parent_path(path: &str) -> (r: String)
    ensures
        r@ == parent_of(path@),
{
    let v = chars_of(path);
    match rfind_char(v.as_slice(), '/') {
        None => String::new(),
        Some(i) => {
            let p = sub_chars(v.as_slice(), 0, i);
            string_from_chars(p.as_slice())
        },
    }
}

/// The last `/`-separated segment (the file name of a relative path).
pub fn last_segment_chars(v: &[char]) -> (r: Vec<char>)
    ensures
        r@ == last_segment(v@),
{
    match rfind_char(v, '/') {
        None => sub_chars(v, 0, v.len()),
        Some(i) => {
            assert(i < v.len());
            sub_chars(v, i + 1, v.len())
        },
    }
}

/// The file name of a relative path: the text after its last `/`.
pub fn rel_name(path: &str) -> (r: String)
    ensures
        r@ == last_segment(path@),
{
    let v = chars_of(path);
    let n = last_segment_chars(v.as_slice());
    string_from_chars(n.as_slice())
}

/// `dir/name`, or `name` when `dir` is empty.
pub fn join_rel(dir: &str, name: &str) -> (r: String)
    ensures
        r@ == joined(dir@, name@),
{
    let mut v = chars_of(dir);
    let n = chars_of(name);
    if v.len() == 0 {
        return string_from_chars(n.as_slice());
    }
    v.push('/');
    append_chars(&mut v, n.as_slice());
    string_from_chars(v.as_slice())
}

fn has_control(t: &[char]) -> (r: bool)
    ensures
        r == exists|i: int| 0 <= i < t@.len() && is_control(#[trigger] t@[i]),
{
    let mut i: usize = 0;
    while i < t.len()
        invariant
            i <= t.len(),
            forall|j: int| 0 <= j < i ==> !is_control(#[trigger] t@[j]),
        decreases t.len() - i,
    {
        if is_control_char(t[i]) {
            return true;
        }
        i = i + 1;
    }
    false
}

/// Checks a proposed file or folder name (after trimming white space): it
/// must not be empty, `.` or `..`, hold `/`, `\` or NUL, or hold control
/// characters.
pub fn validate_file_name(name: &str) -> (r: Result<(), String>)
    ensures
        r is Ok <==> file_name_problem(name@) is None,
        r matches Err(e) ==> file_name_problem(name@) == Some(e@),
{
    let v = chars_of(name);
    let t = trim_chars(v.as_slice());
    if t.len() == 0 {
        return Err("名称不能为空".to_owned());
    }
    let dot = t.len() == 1 && t[0] == '.';
    let dotdot = t.len() == 2 && t[0] == '.' && t[1] == '.';
    if dot || dotdot {
        proof {
            if dot {
                assert(t@ =~= seq!['.']);
            } else {
                assert(t@ =~= seq!['.', '.']);
            }
        }
        return Err("非法名称".to_owned());
    }
    proof {
        if t@ == seq!['.'] {
            assert(t@[0] == '.');
        }
        if t@ == seq!['.', '.'] {
            assert(t@[0] == '.' && t@[1] == '.');
        }
    }
    if contains_char(t.as_slice(), '/') || contains_char(t.as_slice(), '\\') || contains_char(
        t.as_slice(),
        '\0',
    ) {
        return Err("名称不能包含路径分隔符".to_owned());
    }
    if has_control(t.as_slice()) {
        return Err("名称包含非法字符".to_owned());
    }
    Ok(())
}

/// Moves `path` from below `old` to below `new` (see [`rewritten`]).
pub fn rewrite_prefix(path: &str, old: &str, new: &str) -> (r: String)
    ensures
        r@ == rewritten(path@, old@, new@),
{
    let p = chars_of(path);
    let o = chars_of(old);
    let n = chars_of(new);
    if chars_eq(p.as_slice(), o.as_slice()) {
        return string_from_chars(n.as_slice());
    }
    if o.len() > 0 && starts_with_chars(p.as_slice(), o.as_slice()) && o.len() < p.len()
        && p[o.len()] == '/' {
        let mut r = n;
        let tail = sub_chars(p.as_slice(), o.len(), p.len());
        append_chars(&mut r, tail.as_slice());
        return string_from_chars(r.as_slice());
    }
    proof {
        if o@.len() > 0 && starts_with(p@, o@) && o@.len() < p@.len() {
            assert(p@[o@.len() as int] != '/');
        }
    }
    string_from_chars(p.as_slice())
}

/// URL-encodes each non-empty segment of a relative path.
pub fn encode_rel_chars(rel: &[char]) -> (r: Vec<char>)
    ensures
        r@ == encoded_rel(rel@),
{
    let pieces = split_chars(rel, '/');
    let ghost whole = split_on(rel@, '/');
    let ghost sp = Seq::new(pieces@.len(), |i: int| pieces@[i]@);
    assert(sp =~= whole);
    let mut out: Vec<Vec<char>> = Vec::new();
    let mut i: usize = 0;
    assert(sp.take(0) =~= Seq::<Seq<char>>::empty());
    assert(non_empty(Seq::<Seq<char>>::empty()).map_values(|p: Seq<char>| url_encoded(p)) =~= Seq::<Seq<char>>::empty());
    while i < pieces.len()
        invariant
            i <= pieces.len(),
            sp == Seq::new(pieces@.len(), |i: int| pieces@[i]@),
            out@.map_values(|p: Vec<char>| p@) == non_empty(sp.take(i as int)).map_values(
                |p: Seq<char>| url_encoded(p),
            ),
        decreases pieces.len() - i,
    {
        assert(sp.take(i + 1).drop_last() =~= sp.take(i as int));
        assert(sp.take(i + 1).last() == pieces@[i as int]@);
        if pieces[i].len() > 0 {
            let s = string_from_chars(pieces[i].as_slice());
            let e = url_encode(s.as_str());
            let ev = chars_of(e.as_str());
            let ghost before = out@.map_values(|p: Vec<char>| p@);
            out.push(ev);
            assert(out@.map_values(|p: Vec<char>| p@) =~= before.push(url_encoded(pieces@[i as int]@)));
        }
        i = i + 1;
    }
    assert(sp.take(i as int) =~= sp);
    let sep = ['/'];
    assert(sep@ =~= seq!['/']);
    join_chars(&out, &sep)
}

fn prefixed_url(prefix: &str, rel: &str) -> (r: String)
    ensures
        r@ == prefix@ + encoded_rel(rel@),
{
    let mut v = chars_of(prefix);
    let e = encode_rel_chars(chars_of(rel).as_slice());
    append_chars(&mut v, e.as_slice());
    string_from_chars(v.as_slice())
}

/// URL of the original file of a relative path.
pub fn media_url(rel: &str) -> (r: String)
    ensures
        r@ == "/media/"@ + encoded_rel(rel@),
{
    prefixed_url("/media/", rel)
}

/// URL of the thumbnail of a relative path.
pub fn thumb_url(rel: &str) -> (r: String)
    ensures
        r@ == "/thumb/"@ + encoded_rel(rel@),
{
    prefixed_url("/thumb/", rel)
}

/// URL of the preview of a relative path.
pub fn preview_url(rel: &str) -> (r: String)
    ensures
        r@ == "/preview/"@ + encoded_rel(rel@),
{
    prefixed_url("/preview/", rel)
}

} // verus!
