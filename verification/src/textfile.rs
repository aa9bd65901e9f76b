//! Opening and saving text files in the editor: which files may be read or
//! written, the size limits, and how the bytes become text.

use vstd::prelude::*;
use vstd::utf8::encode_utf8;
use crate::rating::{utf16_lossy, utf8_lossy, units_of};
use crate::sniff::{has_prefix, kind_from_header, kind_of_header, FileKind};
use crate::text::{chars_of, utf8_of_chars};

verus! {

/// The most bytes a file may have to be opened in the editor.
pub const READ_LIMIT: u64 = 2097152;

/// The most bytes the editor saves.
pub const WRITE_LIMIT: usize = 8388608;

/// Whether a file may be opened in the editor: not the root, resolvable, a
/// file, and not larger than 2 MiB. `target` is what resolving the path
/// gave: the file's size when it is a file, none when it is not.
pub fn read_check(path: &str, target: Result<Option<u64>, String>) -> (r: Result<(), String>)
    ensures
        path@.len() == 0 ==> (r matches Err(e) && e@ == "不能打开根目录"@),
        path@.len() > 0 && target is Err ==> (r matches Err(e) && e@ == target->Err_0@),
        path@.len() > 0 && target == Ok::<Option<u64>, String>(None) ==> (r matches Err(e) && e@ == "不是文件"@),
        path@.len() > 0 && (target matches Ok(Some(n)) && n > READ_LIMIT) ==> (r matches Err(e)
            && e@ == "文件过大，无法在编辑器中打开"@),
        path@.len() > 0 && (target matches Ok(Some(n)) && n <= READ_LIMIT) ==> r is Ok,
{
    if path.is_empty() {
        return Err("不能打开根目录".to_owned());
    }
    match target {
        Err(e) => Err(e),
        Ok(None) => Err("不是文件".to_owned()),
        Ok(Some(n)) => {
            if n > READ_LIMIT {
                Err("文件过大，无法在编辑器中打开".to_owned())
            } else {
                Ok(())
            }
        },
    }
}

/// The first 64 bytes (or fewer).
pub open spec fn header_of(b: Seq<u8>) -> Seq<u8> {
    if b.len() > 64 { b.subrange(0, 64) } else { b }
}

/// Text of a file's bytes: UTF-16 after a UTF-16 byte order mark, else
/// UTF-8 after an optional UTF-8 byte order mark (decoded lossily).
pub open spec fn decoded_text(b: Seq<u8>) -> Seq<char> {
    if has_prefix(b, seq![0xffu8, 0xfe]) {
        utf16_lossy(units_of(b.subrange(2, b.len() as int), true))
    } else if has_prefix(b, seq![0xfeu8, 0xff]) {
        utf16_lossy(units_of(b.subrange(2, b.len() as int), false))
    } else if has_prefix(b, seq![0xefu8, 0xbb, 0xbf]) {
        utf8_lossy(b.subrange(3, b.len() as int))
    } else {
        utf8_lossy(b)
    }
}

fn tail(b: &[u8], k: usize) -> (r: Vec<u8>)
    requires
        k <= b.len(),
    ensures
        r@ == b@.subrange(k as int, b@.len() as int),
{
    let mut r: Vec<u8> = Vec::new();
    let mut i: usize = k;
    while i < b.len()
        invariant
            k <= i <= b.len(),
            r@ =~= b@.subrange(k as int, i as int),
        decreases b.len() - i,
    {
        r.push(b[i]);
        i = i + 1;
    }
    r
}

/// The text of a file's bytes (see [`decoded_text`]).
pub fn decode_text(bytes: &[u8]) -> (r: String)
    ensures
        r@ == decoded_text(bytes@),
{
    if bytes.len() >= 2 && bytes[0] == 0xff && bytes[1] == 0xfe {
        assert(has_prefix(bytes@, seq![0xffu8, 0xfe])) by {
            assert(bytes@.subrange(0, 2) =~= seq![0xffu8, 0xfe]);
        }
        return crate::rating::utf16_string(tail(bytes, 2).as_slice(), true);
    }
    if bytes.len() >= 2 && bytes[0] == 0xfe && bytes[1] == 0xff {
        assert(has_prefix(bytes@, seq![0xfeu8, 0xff])) by {
            assert(bytes@.subrange(0, 2) =~= seq![0xfeu8, 0xff]);
        }
        assert(!has_prefix(bytes@, seq![0xffu8, 0xfe]));
        return crate::rating::utf16_string(tail(bytes, 2).as_slice(), false);
    }
    assert(!has_prefix(bytes@, seq![0xffu8, 0xfe]) && !has_prefix(bytes@, seq![0xfeu8, 0xff])) by {
        if has_prefix(bytes@, seq![0xffu8, 0xfe]) {
            assert(bytes@.subrange(0, 2)[0] == 0xff && bytes@.subrange(0, 2)[1] == 0xfe);
        }
        if has_prefix(bytes@, seq![0xfeu8, 0xff]) {
            assert(bytes@.subrange(0, 2)[0] == 0xfe && bytes@.subrange(0, 2)[1] == 0xff);
        }
    }
    if bytes.len() >= 3 && bytes[0] == 0xef && bytes[1] == 0xbb && bytes[2] == 0xbf {
        assert(has_prefix(bytes@, seq![0xefu8, 0xbb, 0xbf])) by {
            assert(bytes@.subrange(0, 3) =~= seq![0xefu8, 0xbb, 0xbf]);
        }
        return crate::rating::from_utf8_lossy(tail(bytes, 3).as_slice());
    }
    assert(!has_prefix(bytes@, seq![0xefu8, 0xbb, 0xbf])) by {
        if has_prefix(bytes@, seq![0xefu8, 0xbb, 0xbf]) {
            let h = bytes@.subrange(0, 3);
            assert(h[0] == 0xef && h[1] == 0xbb && h[2] == 0xbf);
        }
    }
    crate::rating::from_utf8_lossy(bytes)
}

/// A file's text for the editor: refused unless its first 64 bytes sniff
/// as text.
pub fn text_content(bytes: &[u8]) -> (r: Result<String, String>)
    ensures
        kind_of_header(header_of(bytes@)) == FileKind::Text ==> (r matches Ok(t) && t@ == decoded_text(bytes@)),
        kind_of_header(header_of(bytes@)) != FileKind::Text ==> (r matches Err(e) && e@ == "不是文本文件"@),
{
    let n = if bytes.len() > 64 { 64 } else { bytes.len() };
    let mut h: Vec<u8> = Vec::new();
    let mut i: usize = 0;
    while i < n
        invariant
            n <= bytes.len(),
            n == (if bytes@.len() > 64 { 64 } else { bytes@.len() as int }),
            i <= n,
            h@ =~= bytes@.subrange(0, i as int),
        decreases n - i,
    {
        h.push(bytes[i]);
        i = i + 1;
    }
    assert(h@ =~= header_of(bytes@));
    if kind_from_header(h.as_slice()) != FileKind::Text {
        return Err("不是文本文件".to_owned());
    }
    Ok(decode_text(bytes))
}

/// Whether text may be saved to a path: not the root, at most 8 MiB of
/// UTF-8, resolvable, not a folder, and (if the file exists) sniffing as
/// text. `target` is what resolving the path gave: whether it is a folder,
/// and the sniffed kind of an existing file (none when there is none).
pub fn write_check(path: &str, content: &str, target: Result<(bool, Option<FileKind>), String>) -> (r: Result<(), String>)
    ensures
        path@.len() == 0 ==> (r matches Err(e) && e@ == "不能写入根目录"@),
        path@.len() > 0 && encode_utf8(content@).len() > WRITE_LIMIT ==> (r matches Err(e) && e@ == "内容过大，无法保存"@),
        path@.len() > 0 && encode_utf8(content@).len() <= WRITE_LIMIT ==> match target {
            Err(m) => r matches Err(e) && e@ == m@,
            Ok((true, _)) => r matches Err(e) && e@ == "不能写入目录"@,
            Ok((false, Some(k))) => if k != FileKind::Text {
                r matches Err(e) && e@ == "不是文本文件"@
            } else {
                r is Ok
            },
            Ok((false, None)) => r is Ok,
        },
{
    if path.is_empty() {
        return Err("不能写入根目录".to_owned());
    }
    let bytes = utf8_of_chars(chars_of(content).as_slice());
    if bytes.len() > WRITE_LIMIT {
        return Err("内容过大，无法保存".to_owned());
    }
    match target {
        Err(e) => Err(e),
        Ok((true, _)) => Err("不能写入目录".to_owned()),
        Ok((false, Some(k))) => {
            if k != FileKind::Text {
                Err("不是文本文件".to_owned())
            } else {
                Ok(())
            }
        },
        Ok((false, None)) => Ok(()),
    }
}

} // verus!
