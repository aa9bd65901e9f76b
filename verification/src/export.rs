//! Planning an export of checked images: the output format, the target
//! folder inside the root, the names of the exported files and how the
//! result is handed to the browser.

use vstd::prelude::*;
use vstd::set_lib::{lemma_int_range, lemma_len_subset, lemma_map_size, set_int_range};
use crate::path::{file_name_problem, last_segment, last_segment_chars, validate_file_name};
use crate::sandbox::{mime_for, mime_of_path, trim_leading_slashes, trim_trailing_slashes};
use crate::text::{
    append_chars, ascii_lower, ascii_lower_char, chars_eq, chars_of, decimal, decimal_chars,
    digit_char, rfind, rfind_char, split_chars, split_on, string_from_chars, sub_chars, trim,
    trim_chars,
};
use crate::batch::{contains_str, strs};

verus! {

/// An image format that images can be converted to.
#[derive(Clone, Copy, Debug, PartialEq, Eq, Structural)]
pub enum ImageFmt {
    Jpeg,
    Png,
    WebP,
    Gif,
    Bmp,
    Tiff,
}

/// How the checked images are exported.
#[derive(Clone, Copy, Debug, PartialEq, Eq, Structural)]
pub enum ExportKind {
    /// The files as they are.
    Original,
    /// Decoded and encoded in another format.
    Convert(ImageFmt),
}

/// File extension written for a format.
pub open spec fn fmt_ext(f: ImageFmt) -> Seq<char> {
    match f {
        ImageFmt::Jpeg => "jpg"@,
        ImageFmt::Png => "png"@,
        ImageFmt::WebP => "webp"@,
        ImageFmt::Gif => "gif"@,
        ImageFmt::Bmp => "bmp"@,
        ImageFmt::Tiff => "tiff"@,
    }
}

/// MIME type of a format.
pub open spec fn fmt_mime(f: ImageFmt) -> Seq<char> {
    match f {
        ImageFmt::Jpeg => "image/jpeg"@,
        ImageFmt::Png => "image/png"@,
        ImageFmt::WebP => "image/webp"@,
        ImageFmt::Gif => "image/gif"@,
        ImageFmt::Bmp => "image/bmp"@,
        ImageFmt::Tiff => "image/tiff"@,
    }
}

impl ImageFmt {
    /// The file extension written for this format.
    pub fn ext(&self) -> (r: &'static str)
        ensures
            r@ == fmt_ext(*self),
    {
        proof {
            reveal_strlit("jpg");
            reveal_strlit("png");
            reveal_strlit("webp");
            reveal_strlit("gif");
            reveal_strlit("bmp");
            reveal_strlit("tiff");
        }
        match self {
            ImageFmt::Jpeg => "jpg",
            ImageFmt::Png => "png",
            ImageFmt::WebP => "webp",
            ImageFmt::Gif => "gif",
            ImageFmt::Bmp => "bmp",
            ImageFmt::Tiff => "tiff",
        }
    }

    /// The MIME type of this format.
    pub fn mime(&self) -> (r: &'static str)
        ensures
            r@ == fmt_mime(*self),
    {
        match self {
            ImageFmt::Jpeg => "image/jpeg",
            ImageFmt::Png => "image/png",
            ImageFmt::WebP => "image/webp",
            ImageFmt::Gif => "image/gif",
            ImageFmt::Bmp => "image/bmp",
            ImageFmt::Tiff => "image/tiff",
        }
    }
}

/// ASCII lower-case form of every character.
pub open spec fn ascii_lowered(s: Seq<char>) -> Seq<char> {
    s.map_values(|c: char| ascii_lower(c))
}

/// The export kind that a format name asks for (white space trimmed, ASCII
/// case ignored); none for an unknown name.
pub open spec fn kind_of_format(fmt: Seq<char>) -> Option<ExportKind> {
    let f = ascii_lowered(trim(fmt));
    if f == "original"@ || f == "orig"@ {
        Some(ExportKind::Original)
    } else if f == "jpg"@ || f == "jpeg"@ {
        Some(ExportKind::Convert(ImageFmt::Jpeg))
    } else if f == "png"@ {
        Some(ExportKind::Convert(ImageFmt::Png))
    } else if f == "webp"@ {
        Some(ExportKind::Convert(ImageFmt::WebP))
    } else if f == "gif"@ {
        Some(ExportKind::Convert(ImageFmt::Gif))
    } else if f == "bmp"@ {
        Some(ExportKind::Convert(ImageFmt::Bmp))
    } else if f == "tif"@ || f == "tiff"@ {
        Some(ExportKind::Convert(ImageFmt::Tiff))
    } else {
        None
    }
}

fn lowered_chars(s: &[char]) -> (r: Vec<char>)
    ensures
        r@ == ascii_lowered(s@),
{
    let mut r: Vec<char> = Vec::new();
    let mut i: usize = 0;
    while i < s.len()
        invariant
            i <= s.len(),
            r@ == ascii_lowered(s@.take(i as int)),
        decreases s.len() - i,
    {
        r.push(ascii_lower_char(s[i]));
        assert(ascii_lowered(s@.take(i + 1)) =~= ascii_lowered(s@.take(i as int)).push(ascii_lower(s@[i as int])));
        i = i + 1;
    }
    assert(s@.take(i as int) =~= s@);
    r
}

fn is_word(s: &[char], w: &str) -> (r: bool)
    ensures
        r == (s@ == w@),
{
    chars_eq(s, chars_of(w).as_slice())
}

/// The export kind named by `fmt`: `original`/`orig`, `jpg`/`jpeg`, `png`,
/// `webp`, `gif`, `bmp`, `tif`/`tiff` (trimmed, ASCII case ignored).
pub fn parse_kind(fmt: &str) -> (r: Result<ExportKind, String>)
    ensures
        match kind_of_format(fmt@) {
            Some(k) => r == Ok::<ExportKind, String>(k),
            None => r matches Err(e) && e@ == "不支持的导出格式"@,
        },
{
    let t = trim_chars(chars_of(fmt).as_slice());
    let f = lowered_chars(t.as_slice());
    let s = f.as_slice();
    if is_word(s, "original") || is_word(s, "orig") {
        Ok(ExportKind::Original)
    } else if is_word(s, "jpg") || is_word(s, "jpeg") {
        Ok(ExportKind::Convert(ImageFmt::Jpeg))
    } else if is_word(s, "png") {
        Ok(ExportKind::Convert(ImageFmt::Png))
    } else if is_word(s, "webp") {
        Ok(ExportKind::Convert(ImageFmt::WebP))
    } else if is_word(s, "gif") {
        Ok(ExportKind::Convert(ImageFmt::Gif))
    } else if is_word(s, "bmp") {
        Ok(ExportKind::Convert(ImageFmt::Bmp))
    } else if is_word(s, "tif") || is_word(s, "tiff") {
        Ok(ExportKind::Convert(ImageFmt::Tiff))
    } else {
        Err("不支持的导出格式".to_owned())
    }
}

/// `s` with every `\` turned into `/`.
pub open spec fn forward_slashes(s: Seq<char>) -> Seq<char> {
    s.map_values(|c: char| if c == '\\' { '/' } else { c })
}

/// The first problem among the non-empty pieces, in order.
pub open spec fn first_piece_problem(pieces: Seq<Seq<char>>) -> Option<Seq<char>>
    decreases pieces.len(),
{
    if pieces.len() == 0 {
        None
    } else if pieces[0].len() > 0 && file_name_problem(pieces[0]) is Some {
        file_name_problem(pieces[0])
    } else {
        first_piece_problem(pieces.drop_first())
    }
}

/// A target folder below the root: trimmed, without leading or trailing `/`,
/// `\` read as `/`; every non-empty segment must be a valid file name.
pub open spec fn sanitized_dir(rel: Seq<char>) -> Result<Seq<char>, Seq<char>> {
    let r = forward_slashes(trim_trailing_slashes(trim_leading_slashes(trim(rel))));
    match first_piece_problem(split_on(r, '/')) {
        Some(e) => Err(e),
        None => Ok(r),
    }
}

fn trim_slashes_chars(s: &[char]) -> (r: Vec<char>)
    ensures
        r@ == trim_trailing_slashes(trim_leading_slashes(s@)),
{
    let mut a: usize = 0;
    assert(s@.subrange(0, s@.len() as int) =~= s@);
    while a < s.len() && s[a] == '/'
        invariant
            a <= s.len(),
            trim_leading_slashes(s@) == trim_leading_slashes(s@.subrange(a as int, s@.len() as int)),
        decreases s.len() - a,
    {
        assert(s@.subrange(a as int, s@.len() as int).drop_first() =~= s@.subrange(a + 1, s@.len() as int));
        a = a + 1;
    }
    assert(trim_leading_slashes(s@.subrange(a as int, s@.len() as int)) == s@.subrange(a as int, s@.len() as int));
    let mut b: usize = s.len();
    while b > a && s[b - 1] == '/'
        invariant
            a <= b <= s.len(),
            trim_trailing_slashes(s@.subrange(a as int, s@.len() as int)) == trim_trailing_slashes(s@.subrange(a as int, b as int)),
        decreases b,
    {
        assert(s@.subrange(a as int, b as int).drop_last() =~= s@.subrange(a as int, b - 1));
        b = b - 1;
    }
    sub_chars(s, a, b)
}

fn forward_slashes_chars(s: &[char]) -> (r: Vec<char>)
    ensures
        r@ == forward_slashes(s@),
{
    let mut r: Vec<char> = Vec::new();
    let mut i: usize = 0;
    while i < s.len()
        invariant
            i <= s.len(),
            r@ == forward_slashes(s@.take(i as int)),
        decreases s.len() - i,
    {
        let c = if s[i] == '\\' { '/' } else { s[i] };
        r.push(c);
        assert(forward_slashes(s@.take(i + 1)) =~= forward_slashes(s@.take(i as int)).push(c));
        i = i + 1;
    }
    assert(s@.take(i as int) =~= s@);
    r
}

/// Checks a target folder given relative to the root (see [`sanitized_dir`]).
pub fn sanitize_rel_dir(rel: &str) -> (r: Result<String, String>)
    ensures
        match (r, sanitized_dir(rel@)) {
            (Ok(v), Ok(w)) => v@ == w,
            (Err(e), Err(m)) => e@ == m,
            _ => false,
        },
{
    let t = trim_chars(chars_of(rel).as_slice());
    let u = trim_slashes_chars(t.as_slice());
    let f = forward_slashes_chars(u.as_slice());
    let pieces = split_chars(f.as_slice(), '/');
    let ghost ps = split_on(f@, '/');
    assert(f@ == forward_slashes(trim_trailing_slashes(trim_leading_slashes(trim(rel@)))));
    let mut i: usize = 0;
    assert(ps.subrange(0, ps.len() as int) =~= ps);
    while i < pieces.len()
        invariant
            i <= pieces.len(),
            f@ == forward_slashes(trim_trailing_slashes(trim_leading_slashes(trim(rel@)))),
            ps == split_on(f@, '/'),
            pieces@.len() == ps.len(),
            forall|k: int| 0 <= k < pieces@.len() ==> (#[trigger] pieces@[k])@ == ps[k],
            first_piece_problem(ps) == first_piece_problem(ps.subrange(i as int, ps.len() as int)),
        decreases pieces.len() - i,
    {
        let ghost rest = ps.subrange(i as int, ps.len() as int);
        assert(rest[0] == pieces@[i as int]@);
        assert(rest.drop_first() =~= ps.subrange(i + 1, ps.len() as int));
        if pieces[i].len() > 0 {
            let name = string_from_chars(pieces[i].as_slice());
            match validate_file_name(name.as_str()) {
                Ok(()) => {},
                Err(e) => {
                    assert(rest[0] == name@);
                    assert(first_piece_problem(rest) == Some(e@));
                    assert(sanitized_dir(rel@) == Err::<Seq<char>, Seq<char>>(e@));
                    return Err(e);
                },
            }
        }
        i = i + 1;
    }
    assert(ps.subrange(i as int, ps.len() as int) =~= Seq::<Seq<char>>::empty());
    Ok(string_from_chars(f.as_slice()))
}

/// Stem of the last segment of a path: the text before its last `.`, or the
/// whole segment when that would be empty.
pub open spec fn stem_of(rel: Seq<char>) -> Seq<char> {
    let name = last_segment(rel);
    let k = rfind(name, '.');
    if k > 0 {
        name.subrange(0, k)
    } else {
        name
    }
}

/// The stem of the file named by a relative path (see [`stem_of`]).
pub fn file_stem_name(rel: &str) -> (r: String)
    ensures
        r@ == stem_of(rel@),
{
    let name = last_segment_chars(chars_of(rel).as_slice());
    match rfind_char(name.as_slice(), '.') {
        Some(k) => {
            if k > 0 {
                string_from_chars(sub_chars(name.as_slice(), 0, k).as_slice())
            } else {
                string_from_chars(name.as_slice())
            }
        },
        None => string_from_chars(name.as_slice()),
    }
}

/// Name of a converted file: the stem of its path and the format's extension.
pub open spec fn converted_name(rel: Seq<char>, f: ImageFmt) -> Seq<char> {
    stem_of(rel) + seq!['.'] + fmt_ext(f)
}

/// The name a converted image is written under.
pub fn converted_file_name(rel: &str, f: ImageFmt) -> (r: String)
    ensures
        r@ == converted_name(rel@, f),
{
    let mut v = chars_of(file_stem_name(rel).as_str());
    v.push('.');
    append_chars(&mut v, chars_of(f.ext()).as_slice());
    string_from_chars(v.as_slice())
}

/// Stem and suffix of a download name: split at the last `.` when the stem
/// is not empty (the suffix keeps its `.`).
pub open spec fn stem_suffix(name: Seq<char>) -> (Seq<char>, Seq<char>) {
    let k = rfind(name, '.');
    if k > 0 {
        (name.subrange(0, k), seq!['.'] + name.subrange(k + 1, name.len() as int))
    } else {
        (name, Seq::<char>::empty())
    }
}

/// `stem (i)suffix`.
pub open spec fn numbered_name(name: Seq<char>, i: nat) -> Seq<char> {
    stem_suffix(name).0 + seq![' ', '('] + decimal(i) + seq![')'] + stem_suffix(name).1
}

/// The first `i` from which on no numbered name is taken in `used`.
pub open spec fn first_unused(name: Seq<char>, used: Seq<Seq<char>>, i: nat) -> nat
    decreases used.len() + 2 - i,
{
    if i > used.len() + 1 || !used.contains(numbered_name(name, i)) {
        i
    } else {
        first_unused(name, used, i + 1)
    }
}

/// The name a file gets in a download: its own name when that is unused,
/// else the first unused `stem (i)suffix` for i = 1, 2, …
pub open spec fn download_name(name: Seq<char>, used: Seq<Seq<char>>) -> Seq<char> {
    if !used.contains(name) {
        name
    } else {
        numbered_name(name, first_unused(name, used, 1))
    }
}

proof fn lemma_decimal_shape(n: nat)
    ensures
        decimal(n).len() >= 1,
        n >= 10 ==> decimal(n).len() >= 2,
        n < 10 ==> decimal(n).len() == 1,
    decreases n,
{
    if n >= 10 {
        lemma_decimal_shape(n / 10);
    }
}

proof fn lemma_digit_injective(a: nat, b: nat)
    requires
        a < 10,
        b < 10,
        digit_char(a) == digit_char(b),
    ensures
        a == b,
{
    assert((digit_char(a) as u32) == 0x30 + a);
    assert((digit_char(b) as u32) == 0x30 + b);
}

proof fn lemma_decimal_injective(a: nat, b: nat)
    requires
        decimal(a) == decimal(b),
    ensures
        a == b,
    decreases a,
{
    lemma_decimal_shape(a);
    lemma_decimal_shape(b);
    if a < 10 && b < 10 {
        assert(decimal(a)[0] == digit_char(a));
        assert(decimal(b)[0] == digit_char(b));
        lemma_digit_injective(a, b);
    } else if a >= 10 && b >= 10 {
        let da = decimal(a);
        assert(da.last() == digit_char(a % 10));
        assert(decimal(b).last() == digit_char(b % 10));
        lemma_digit_injective(a % 10, b % 10);
        assert(da.drop_last() =~= decimal(a / 10));
        assert(decimal(b).drop_last() =~= decimal(b / 10));
        lemma_decimal_injective(a / 10, b / 10);
    }
}

proof fn lemma_numbered_injective(name: Seq<char>, i: nat, j: nat)
    requires
        numbered_name(name, i) == numbered_name(name, j),
    ensures
        i == j,
{
    let (stem, suffix) = stem_suffix(name);
    let ni = numbered_name(name, i);
    let nj = numbered_name(name, j);
    assert(ni.len() == stem.len() + 2 + decimal(i).len() + 1 + suffix.len());
    assert(nj.len() == stem.len() + 2 + decimal(j).len() + 1 + suffix.len());
    assert(decimal(i).len() == decimal(j).len());
    let lo = stem.len() + 2;
    let hi = lo + decimal(i).len();
    assert(ni.subrange(lo as int, hi as int) =~= decimal(i));
    assert(nj.subrange(lo as int, hi as int) =~= decimal(j));
    lemma_decimal_injective(i, j);
}

proof fn lemma_some_numbered_unused(name: Seq<char>, used: Seq<Seq<char>>)
    ensures
        exists|i: nat| 1 <= i <= used.len() + 1 && !used.contains(#[trigger] numbered_name(name, i)),
{
    if forall|i: nat| 1 <= i <= used.len() + 1 ==> used.contains(#[trigger] numbered_name(name, i)) {
        let n = used.len();
        let x = set_int_range(1, n as int + 2);
        lemma_int_range(1, n as int + 2);
        let f = |i: int| numbered_name(name, i as nat);
        assert(vstd::relations::injective_on(f, x)) by {
            assert forall|a: int, b: int| x.contains(a) && x.contains(b) && #[trigger] f(a) == #[trigger] f(b) implies a == b by {
                lemma_numbered_injective(name, a as nat, b as nat);
            }
        }
        let y = x.map(f);
        lemma_map_size(x, y, f);
        assert(y.subset_of(used.to_set())) by {
            assert forall|e: Seq<char>| y.contains(e) implies used.to_set().contains(e) by {
                let a = choose|a: int| x.contains(a) && f(a) == e;
                assert(used.contains(numbered_name(name, a as nat)));
            }
        }
        lemma_len_subset(y, used.to_set());
        used.lemma_cardinality_of_set();
        assert(false);
    }
}

proof fn lemma_first_unused_ge(name: Seq<char>, used: Seq<Seq<char>>, i: nat)
    ensures
        first_unused(name, used, i) >= i,
        i <= used.len() + 1 && used.contains(numbered_name(name, i)) ==> first_unused(name, used, i) > i,
    decreases used.len() + 2 - i,
{
    if i <= used.len() + 1 && used.contains(numbered_name(name, i)) {
        lemma_first_unused_ge(name, used, i + 1);
    }
}

proof fn lemma_first_unused(name: Seq<char>, used: Seq<Seq<char>>, i: nat, j: nat)
    requires
        1 <= i <= j <= used.len() + 1,
        !used.contains(numbered_name(name, j)),
    ensures
        first_unused(name, used, i) <= j,
        !used.contains(numbered_name(name, first_unused(name, used, i))),
    decreases j - i,
{
    if used.contains(numbered_name(name, i)) {
        lemma_first_unused(name, used, i + 1, j);
    }
}

/// The download name is never among those already used.
pub proof fn lemma_download_name_unused(name: Seq<char>, used: Seq<Seq<char>>)
    ensures
        !used.contains(download_name(name, used)),
        used.contains(name) ==> first_unused(name, used, 1) <= used.len() + 1,
{
    if used.contains(name) {
        lemma_some_numbered_unused(name, used);
        let j = choose|i: nat| 1 <= i <= used.len() + 1 && !used.contains(#[trigger] numbered_name(name, i));
        lemma_first_unused(name, used, 1, j);
    }
}

fn numbered_chars(stem: &[char], suffix: &[char], i: u64) -> (r: Vec<char>)
    ensures
        r@ == stem@ + seq![' ', '('] + decimal(i as nat) + seq![')'] + suffix@,
{
    let mut r = sub_chars(stem, 0, stem.len());
    r.push(' ');
    r.push('(');
    append_chars(&mut r, decimal_chars(i).as_slice());
    r.push(')');
    append_chars(&mut r, suffix);
    r
}

/// A name for a file of a download that no earlier file of it has (see
/// [`download_name`]); the name is recorded as used.
pub fn unique_out_name(used: &mut Vec<String>, name: &str) -> (r: String)
    requires
        old(used)@.len() < u64::MAX,
    ensures
        r@ == download_name(name@, strs(old(used)@)),
        !strs(old(used)@).contains(r@),
        strs(final(used)@) == strs(old(used)@).push(r@),
{
    let ghost u = strs(used@);
    proof { lemma_download_name_unused(name@, u); }
    if !contains_str(used, name) {
        used.push(name.to_owned());
        assert(strs(used@) =~= u.push(name@));
        return name.to_owned();
    }
    let n = chars_of(name);
    let (stem, suffix): (Vec<char>, Vec<char>) = match rfind_char(n.as_slice(), '.') {
        Some(k) => {
            if k > 0 {
                let mut sfx: Vec<char> = Vec::new();
                sfx.push('.');
                append_chars(&mut sfx, sub_chars(n.as_slice(), k + 1, n.len()).as_slice());
                (sub_chars(n.as_slice(), 0, k), sfx)
            } else {
                (sub_chars(n.as_slice(), 0, n.len()), Vec::new())
            }
        },
        None => (sub_chars(n.as_slice(), 0, n.len()), Vec::new()),
    };
    assert(stem@ == stem_suffix(name@).0 && suffix@ =~= stem_suffix(name@).1);
    let bound: u64 = used.len() as u64 + 1;
    let mut i: u64 = 1;
    loop
        invariant
            1 <= i <= bound,
            bound == u.len() + 1,
            u == strs(used@),
            used@ == old(used)@,
            u.contains(name@),
            stem@ == stem_suffix(name@).0,
            suffix@ == stem_suffix(name@).1,
            first_unused(name@, u, 1) == first_unused(name@, u, i as nat),
            first_unused(name@, u, 1) <= u.len() + 1,
        decreases bound - i,
    {
        let cand = string_from_chars(numbered_chars(stem.as_slice(), suffix.as_slice(), i).as_slice());
        assert(cand@ == numbered_name(name@, i as nat));
        if !contains_str(used, cand.as_str()) {
            assert(first_unused(name@, u, i as nat) == i as nat);
            let out = cand.clone();
            assert(out@ == cand@);
            assert(out@ == download_name(name@, u));
            used.push(cand);
            assert(strs(used@) =~= u.push(out@));
            return out;
        }
        proof { lemma_first_unused_ge(name@, u, i as nat); }
        i = i + 1;
    }
}

/// Where an export goes and in which form, once the files are staged.
#[derive(Debug, PartialEq, Eq, Structural)]
pub enum DownloadPlan {
    /// Nothing to hand out (written into a folder, or nothing staged).
    Nothing,
    /// One file, handed out as it is.
    Single,
    /// Several files, packed into one zip archive.
    Zip,
}

/// How staged files are handed out: a single file as it is, more as a zip,
/// nothing when the export was written into a folder or nothing was staged.
pub fn download_plan(to_download: bool, staged: usize) -> (r: DownloadPlan)
    ensures
        r == (if !to_download || staged == 0 {
            DownloadPlan::Nothing
        } else if staged == 1 {
            DownloadPlan::Single
        } else {
            DownloadPlan::Zip
        }),
{
    if !to_download || staged == 0 {
        DownloadPlan::Nothing
    } else if staged == 1 {
        DownloadPlan::Single
    } else {
        DownloadPlan::Zip
    }
}

/// MIME type of a single downloaded file: that of its name for originals,
/// that of the format for conversions.
pub open spec fn single_mime(kind: ExportKind, filename: Seq<char>) -> Seq<char> {
    match kind {
        ExportKind::Original => mime_of_path(filename),
        ExportKind::Convert(f) => fmt_mime(f),
    }
}

/// The MIME type under which a single exported file is downloaded.
pub fn download_mime(kind: ExportKind, filename: &str) -> (r: &'static str)
    ensures
        r@ == single_mime(kind, filename@),
{
    match kind {
        ExportKind::Original => mime_for(filename),
        ExportKind::Convert(f) => f.mime(),
    }
}

/// The URL at which a stored download is fetched.
pub fn export_url(id: u64) -> (r: String)
    ensures
        r@ == "/export/"@ + decimal(id as nat),
{
    let mut v = chars_of("/export/");
    append_chars(&mut v, decimal_chars(id).as_slice());
    string_from_chars(v.as_slice())
}

/// An export into a folder rather than a download (`dest` is `dir`).
pub fn exports_to_folder(dest: &str) -> (r: bool)
    ensures
        r == (dest@ == "dir"@),
{
    is_word(chars_of(dest).as_slice(), "dir")
}

/// A file name for a `Content-Disposition` header: the name without `"`.
pub open spec fn quoted_safe(name: Seq<char>) -> Seq<char>
    decreases name.len(),
{
    if name.len() == 0 {
        name
    } else if name.last() == '"' {
        quoted_safe(name.drop_last())
    } else {
        quoted_safe(name.drop_last()).push(name.last())
    }
}

/// `attachment; filename="…"` for a downloaded file (its `"` removed).
pub fn content_disposition(filename: &str) -> (r: String)
    ensures
        r@ == "attachment; filename=\""@ + quoted_safe(filename@) + seq!['"'],
{
    let s = chars_of(filename);
    let mut q: Vec<char> = Vec::new();
    let mut i: usize = 0;
    while i < s.len()
        invariant
            i <= s.len(),
            q@ == quoted_safe(s@.take(i as int)),
        decreases s.len() - i,
    {
        assert(s@.take(i + 1).drop_last() =~= s@.take(i as int));
        if s[i] != '"' {
            q.push(s[i]);
        }
        i = i + 1;
    }
    assert(s@.take(i as int) =~= s@);
    let mut v = chars_of("attachment; filename=\"");
    append_chars(&mut v, q.as_slice());
    v.push('"');
    string_from_chars(v.as_slice())
}

} // verus!
