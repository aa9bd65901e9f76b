//! Decisions of the image viewer and the text editor: which folder the
//! gallery shows, stepping through it, its filmstrip pages, the rotation to
//! save, and the editor's line count and font size.

use vstd::prelude::*;
use crate::batch::{contains_str, strs};
use crate::explorer::SelectedItem;
use crate::path::{last_segment, last_segment_chars, parent_of, parent_path};
use crate::text::{chars_eq, chars_of, copy_string, string_from_chars};

verus! {

/// Thumbnails per filmstrip page.
pub const FILMSTRIP_PAGE: usize = 100;

/// The folder the gallery shows: that of the viewed image, else the
/// selected folder, else the selected file's folder, else the root.
pub open spec fn gallery_dir_of(viewed: Option<Seq<char>>, selected: Option<(Seq<char>, bool)>) -> Seq<char> {
    match viewed {
        Some(p) => parent_of(p),
        None => match selected {
            Some((p, is_dir)) => if is_dir { p } else { parent_of(p) },
            None => Seq::empty(),
        },
    }
}

/// The folder the gallery shows (see [`gallery_dir_of`]).
pub fn gallery_dir(viewed: Option<&str>, selected: Option<&SelectedItem>) -> (r: String)
    ensures
        r@ == gallery_dir_of(
            match viewed { Some(p) => Some(p@), None => None },
            match selected { Some(s) => Some((s.path@, s.is_dir)), None => None },
        ),
{
    match viewed {
        Some(p) => parent_path(p),
        None => match selected {
            Some(s) => if s.is_dir { copy_string(&s.path) } else { parent_path(s.path.as_str()) },
            None => String::new(),
        },
    }
}

/// The paths that a filter lets through, in order; all of them without a
/// filter.
pub open spec fn filtered_paths(paths: Seq<Seq<char>>, filter: Option<Seq<Seq<char>>>) -> Seq<Seq<char>>
    decreases paths.len(),
{
    match filter {
        None => paths,
        Some(f) => if paths.len() == 0 {
            paths
        } else if f.contains(paths.last()) {
            filtered_paths(paths.drop_last(), filter).push(paths.last())
        } else {
            filtered_paths(paths.drop_last(), filter)
        },
    }
}

/// The gallery's paths that the star and tag filter lets through.
pub fn apply_path_filter(paths: Vec<String>, filter: Option<&Vec<String>>) -> (r: Vec<String>)
    ensures
        strs(r@) == filtered_paths(strs(paths@), match filter { Some(f) => Some(strs(f@)), None => None }),
{
    let f = match filter {
        None => return paths,
        Some(f) => f,
    };
    let ghost ps = strs(paths@);
    let ghost fo = Some(strs(f@));
    let mut out: Vec<String> = Vec::new();
    let mut i: usize = 0;
    assert(ps.take(0) =~= Seq::<Seq<char>>::empty());
    while i < paths.len()
        invariant
            i <= paths.len(),
            ps == strs(paths@),
            fo == Some(strs(f@)),
            strs(out@) == filtered_paths(ps.take(i as int), fo),
        decreases paths.len() - i,
    {
        assert(ps.take(i + 1).drop_last() =~= ps.take(i as int));
        assert(ps.take(i + 1).last() == ps[i as int]);
        if contains_str(f, paths[i].as_str()) {
            let ghost before = strs(out@);
            out.push(copy_string(&paths[i]));
            assert(strs(out@) =~= before.push(ps[i as int]));
        }
        i = i + 1;
    }
    assert(ps.take(i as int) =~= ps);
    out
}

/// Index of the first occurrence of `x`, or -1.
pub open spec fn position_of(s: Seq<Seq<char>>, x: Seq<char>) -> int
    decreases s.len(),
{
    if s.len() == 0 {
        -1
    } else if position_of(s.drop_last(), x) >= 0 {
        position_of(s.drop_last(), x)
    } else if s.last() == x {
        s.len() - 1
    } else {
        -1
    }
}

proof fn lemma_position_of(s: Seq<Seq<char>>, x: Seq<char>)
    ensures
        -1 <= position_of(s, x) < s.len(),
        position_of(s, x) >= 0 ==> s[position_of(s, x)] == x,
        forall|j: int| 0 <= j < s.len() && (position_of(s, x) < 0 || j < position_of(s, x)) ==> s[j] != x,
    decreases s.len(),
{
    if s.len() > 0 {
        lemma_position_of(s.drop_last(), x);
        assert forall|j: int| 0 <= j < s.len() && (position_of(s, x) < 0 || j < position_of(s, x)) implies s[j] != x by {
            if j < s.len() - 1 {
                assert(s[j] == s.drop_last()[j]);
            }
        }
    }
}

/// Where `current` stands in the list, if it is there.
pub fn position(shown: &Vec<String>, current: &str) -> (r: Option<usize>)
    ensures
        match r {
            Some(i) => position_of(strs(shown@), current@) == i as int && i < shown@.len(),
            None => position_of(strs(shown@), current@) == -1,
        },
{
    proof { lemma_position_of(strs(shown@), current@); }
    let c = chars_of(current);
    let mut i: usize = 0;
    while i < shown.len()
        invariant
            i <= shown.len(),
            c@ == current@,
            forall|j: int| 0 <= j < i ==> strs(shown@)[j] != current@,
            -1 <= position_of(strs(shown@), current@) < shown@.len(),
            position_of(strs(shown@), current@) >= 0 ==> strs(shown@)[position_of(strs(shown@), current@)] == current@,
            forall|j: int| 0 <= j < shown@.len() && (position_of(strs(shown@), current@) < 0 || j < position_of(strs(shown@), current@))
                ==> strs(shown@)[j] != current@,
        decreases shown.len() - i,
    {
        if chars_eq(chars_of(shown[i].as_str()).as_slice(), c.as_slice()) {
            assert(strs(shown@)[i as int] == current@);
            return Some(i);
        }
        i = i + 1;
    }
    None
}

/// The index `delta` steps away from the current image, when the current
/// image is in the list and the step stays inside it.
pub fn step_index(shown: &Vec<String>, current: &str, delta: i64) -> (r: Option<usize>)
    ensures
        ({
            let p = position_of(strs(shown@), current@);
            if p >= 0 && 0 <= p + delta < shown@.len() {
                r == Some((p + delta) as usize)
            } else {
                r is None
            }
        }),
{
    let idx = match position(shown, current) {
        None => return None,
        Some(i) => i,
    };
    let next: i128 = idx as i128 + delta as i128;
    if next >= 0 && next < shown.len() as i128 {
        Some(next as usize)
    } else {
        None
    }
}

/// Number of filmstrip pages for `n` thumbnails.
pub open spec fn pages_for(n: nat) -> nat {
    if n == 0 {
        0
    } else {
        ((n + FILMSTRIP_PAGE - 1) / (FILMSTRIP_PAGE as int)) as nat
    }
}

/// Number of filmstrip pages for `n` thumbnails.
pub fn filmstrip_pages(n: usize) -> (r: usize)
    ensures
        r == pages_for(n as nat),
{
    if n == 0 {
        0
    } else {
        (n - 1) / FILMSTRIP_PAGE + 1
    }
}

/// One shown page of the filmstrip: its number, the number of pages, the
/// range of thumbnails on it, and whether there are pages before and after.
#[derive(Clone, Copy, Debug, PartialEq, Eq, Structural)]
pub struct FilmstripWindow {
    pub page: usize,
    pub pages: usize,
    pub start: usize,
    pub end: usize,
    pub has_prev: bool,
    pub has_next: bool,
}

/// The page shown for a requested page (the last one at most).
pub open spec fn shown_page(n: nat, requested: nat) -> nat {
    let last = if pages_for(n) == 0 { 0 } else { (pages_for(n) - 1) as nat };
    if requested > last { last } else { requested }
}

/// The filmstrip page shown for `n` thumbnails when page `requested` is
/// asked for.
pub fn filmstrip_window(n: usize, requested: usize) -> (r: FilmstripWindow)
    ensures
        r.pages == pages_for(n as nat),
        r.page == shown_page(n as nat, requested as nat),
        r.start == r.page * FILMSTRIP_PAGE,
        r.end == (if r.start + FILMSTRIP_PAGE > n { n as int } else { r.start + FILMSTRIP_PAGE }),
        r.has_prev == (r.page > 0),
        r.has_next == (r.pages > 1 && r.page + 1 < r.pages),
        r.start <= r.end <= n,
{
    let pages = filmstrip_pages(n);
    let last = if pages == 0 { 0 } else { pages - 1 };
    let page = if requested > last { last } else { requested };
    assert(page * FILMSTRIP_PAGE <= n) by (nonlinear_arith)
        requires
            pages == pages_for(n as nat),
            page <= last,
            last == (if pages == 0 { 0 } else { pages - 1 }),
            FILMSTRIP_PAGE == 100,
    ;
    let start = page * FILMSTRIP_PAGE;
    let end = if n - start < FILMSTRIP_PAGE { n } else { start + FILMSTRIP_PAGE };
    FilmstripWindow { page, pages, start, end, has_prev: page > 0, has_next: pages > 1 && page < last }
}

/// The last filmstrip page for `n` thumbnails (0 when there are none).
pub open spec fn last_page(n: nat) -> nat {
    if pages_for(n) == 0 { 0 } else { (pages_for(n) - 1) as nat }
}

/// The page asked for after the next-page button: one past the page asked
/// for before, the last page at most.
pub fn next_filmstrip_page(requested: usize, n: usize) -> (r: usize)
    ensures
        r == (if requested + 1 > last_page(n as nat) { last_page(n as nat) as int } else { requested + 1 }),
{
    let pages = filmstrip_pages(n);
    let last = if pages == 0 { 0 } else { pages - 1 };
    if requested >= last { last } else { requested + 1 }
}

/// The page asked for after the previous-page button: one before the page
/// asked for before, 0 at least.
pub fn prev_filmstrip_page(requested: usize) -> (r: usize)
    ensures
        r == (if requested == 0 { 0 } else { requested - 1 }),
{
    if requested == 0 { 0 } else { requested - 1 }
}

/// The filmstrip page that holds the thumbnail at `index`.
pub fn page_of_index(index: usize) -> (r: usize)
    ensures
        r == index / FILMSTRIP_PAGE,
{
    index / FILMSTRIP_PAGE
}

/// `x` modulo 360 in 0..360 (Euclidean remainder).
pub open spec fn degrees_of(x: int) -> int {
    x % 360
}

/// `x.rem_euclid(360)`.
pub fn rem_360(x: i32) -> (r: i32)
    ensures
        r == degrees_of(x as int),
        0 <= r < 360,
{
    let y: i64 = x as i64;
    if y >= 0 {
        let m: i64 = y % 360;
        assert(m == (x as int) % 360);
        m as i32
    } else {
        let z: i64 = -y;
        let m: i64 = z % 360;
        if m == 0 {
            assert((x as int) % 360 == 0) by (nonlinear_arith)
                requires
                    z == -(x as int),
                    z % 360 == 0,
                    z > 0,
            ;
            0
        } else {
            assert((x as int) % 360 == 360 - m) by (nonlinear_arith)
                requires
                    z == -(x as int),
                    m == z % 360,
                    m != 0,
                    z > 0,
            ;
            (360 - m) as i32
        }
    }
}

/// The rotation after turning left by 90°.
pub fn rotate_left(r: i32) -> (n: i32)
    requires
        r >= i32::MIN + 90,
    ensures
        n == degrees_of(r - 90),
{
    rem_360(r - 90)
}

/// Rust's `%` by 360 (the remainder takes the sign of `x`).
pub open spec fn trunc_rem_360(x: int) -> int {
    if x >= 0 { x % 360 } else { -((-x) % 360) }
}

/// The rotation after turning right by 90° (`(r + 90) % 360`).
pub fn rotate_right(r: i32) -> (n: i32)
    requires
        r <= i32::MAX - 90,
    ensures
        n == trunc_rem_360(r + 90),
{
    let x: i64 = r as i64 + 90;
    if x >= 0 {
        (x % 360) as i32
    } else {
        let m: i64 = (-x) % 360;
        -(m as i32)
    }
}

/// The rotation to write into the file: none when it is a whole turn.
pub fn rotation_to_save(r: i32) -> (d: Option<i32>)
    ensures
        degrees_of(r as int) == 0 ==> d is None,
        degrees_of(r as int) != 0 ==> d == Some(degrees_of(r as int) as i32),
{
    let d = rem_360(r);
    if d == 0 {
        None
    } else {
        Some(d)
    }
}

/// A quarter-turn rotation of an image.
#[derive(Clone, Copy, Debug, PartialEq, Eq, Structural)]
pub enum Rotation {
    Quarter,
    Half,
    ThreeQuarters,
}

/// What rotating a file by `degrees` does: nothing for a whole turn, one of
/// the quarter turns, or an error for other angles.
pub fn rotation_plan(degrees: i32) -> (r: Result<Option<Rotation>, String>)
    ensures
        degrees_of(degrees as int) == 0 ==> r == Ok::<Option<Rotation>, String>(None),
        degrees_of(degrees as int) == 90 ==> r == Ok::<Option<Rotation>, String>(Some(Rotation::Quarter)),
        degrees_of(degrees as int) == 180 ==> r == Ok::<Option<Rotation>, String>(Some(Rotation::Half)),
        degrees_of(degrees as int) == 270 ==> r == Ok::<Option<Rotation>, String>(Some(Rotation::ThreeQuarters)),
        degrees_of(degrees as int) % 90 != 0 ==> (r matches Err(e) && e@ == "只支持按 90° 的倍数旋转"@),
{
    let d = rem_360(degrees);
    if d == 0 {
        Ok(None)
    } else if d == 90 {
        Ok(Some(Rotation::Quarter))
    } else if d == 180 {
        Ok(Some(Rotation::Half))
    } else if d == 270 {
        Ok(Some(Rotation::ThreeQuarters))
    } else {
        Err("只支持按 90° 的倍数旋转".to_owned())
    }
}

/// The name shown for the viewed image: its file name, or a prompt.
pub fn viewer_name(viewed: Option<&str>) -> (r: String)
    ensures
        viewed matches Some(p) ==> r@ == last_segment(p@),
        viewed is None ==> r@ == "未选择图片"@,
{
    match viewed {
        Some(p) => string_from_chars(last_segment_chars(chars_of(p).as_slice()).as_slice()),
        None => "未选择图片".to_owned(),
    }
}

/// How many `c` occur in `s`.
pub open spec fn count_char(s: Seq<char>, c: char) -> nat
    decreases s.len(),
{
    if s.len() == 0 {
        0
    } else {
        count_char(s.drop_last(), c) + if s.last() == c { 1nat } else { 0nat }
    }
}

/// Lines shown in the editor's gutter: one more than the line breaks (one
/// for empty text).
pub fn line_count(text: &str) -> (r: usize)
    requires
        text@.len() < usize::MAX,
    ensures
        r == count_char(text@, '\n') + 1,
{
    let s = chars_of(text);
    let ghost len = s@.len();
    let mut n: usize = 0;
    let mut i: usize = 0;
    while i < s.len()
        invariant
            i <= s.len(),
            n == count_char(s@.take(i as int), '\n'),
            n <= i,
            s@ == text@,
            text@.len() < usize::MAX,
        decreases s.len() - i,
    {
        assert(s@.take(i + 1).drop_last() =~= s@.take(i as int));
        if s[i] == '\n' {
            n = n + 1;
        }
        i = i + 1;
    }
    assert(s@.take(i as int) =~= s@);
    n + 1
}

/// The star rating after clicking star `n`: clicking the current rating
/// clears it.
pub fn clicked_stars(current: u8, n: u8) -> (r: u8)
    ensures
        r == (if current == n { 0 } else { n }),
{
    if current == n { 0 } else { n }
}

/// Smallest editor font size.
pub const FONT_MIN: u32 = 12;
/// Largest editor font size.
pub const FONT_MAX: u32 = 28;

/// The editor's font size after a change by `delta`, kept within
/// 12..=28 (a size beyond `i32` counts as 15).
pub fn bump_font(size: u32, delta: i32) -> (r: u32)
    requires
        i32::MIN <= (if size <= i32::MAX { size as int } else { 15 }) + delta <= i32::MAX,
    ensures
        ({
            let base: int = if size <= i32::MAX { size as int } else { 15 };
            let next = base + delta;
            r == (if next < FONT_MIN { FONT_MIN as int } else if next > FONT_MAX { FONT_MAX as int } else { next })
        }),
{
    let base: i64 = if size <= 0x7fff_ffff { size as i64 } else { 15 };
    let next: i64 = base + delta as i64;
    if next < FONT_MIN as i64 {
        FONT_MIN
    } else if next > FONT_MAX as i64 {
        FONT_MAX
    } else {
        next as u32
    }
}

} // verus!
