//! Batch actions started from the image viewer's bars: marking and
//! exporting the checked images, and what the explorer shows when they end.

use vstd::prelude::*;
use crate::explorer::{
    bumped, current_dir_of, items_view, ExplorerState, ExplorerView, FailureItem, FailureReport,
    ItemView,
};
use crate::text::{
    append_chars, chars_eq, chars_of, copy_string, decimal, decimal_chars, string_from_chars, trim,
    trim_chars,
};

verus! {

/// Paths of the checked images, in order.
pub open spec fn checked_images(c: Seq<ItemView>) -> Seq<Seq<char>>
    decreases c.len(),
{
    if c.len() == 0 {
        Seq::empty()
    } else if c.last().is_image {
        checked_images(c.drop_last()).push(c.last().path)
    } else {
        checked_images(c.drop_last())
    }
}

/// `prefix n suffix` with `n` in decimal.
pub open spec fn counted(prefix: Seq<char>, n: nat, suffix: Seq<char>) -> Seq<char> {
    prefix + decimal(n) + suffix
}

/// What the explorer shows once a batch action has started, or why it did
/// not start: nothing happens while busy; without checked images it says
/// so; else it is busy, saying how many images are being worked on.
pub open spec fn batch_start(v: ExplorerView, verb: Seq<char>) -> (ExplorerView, Option<Seq<Seq<char>>>) {
    let paths = checked_images(v.checked);
    if v.busy {
        (v, None)
    } else if paths.len() == 0 {
        (ExplorerView { status: "请先勾选图片"@, ..v }, None)
    } else {
        (ExplorerView { busy: true, status: counted(verb, paths.len(), " 张…"@), ..v }, Some(paths))
    }
}

/// The status line and failure report after a batch action answered:
/// nothing checked, all done, or done in part with the failures reported
/// under `title`; an error is shown after `failed`. The explorer is no
/// longer busy.
pub open spec fn batch_end(
    v: ExplorerView,
    report: Result<(u32, u32, Seq<(Seq<char>, Seq<char>)>), Seq<char>>,
    all_done: Seq<char>,
    part_done: Seq<char>,
    title: Seq<char>,
    failed: Seq<char>,
) -> ExplorerView {
    match report {
        Err(e) => ExplorerView { status: failed + e, busy: false, ..v },
        Ok((ok, total, fails)) => if total == 0 {
            ExplorerView { status: "请先勾选图片"@, busy: false, ..v }
        } else if fails.len() == 0 {
            ExplorerView { status: counted(all_done, ok as nat, " 张"@), busy: false, ..v }
        } else {
            ExplorerView {
                status: part_done + decimal(ok as nat) + seq!['/'] + decimal(total as nat) + " 张，失败 "@ + decimal(fails.len()),
                failure_report: Some((title, fails)),
                busy: false,
                ..v
            }
        },
    }
}

pub open spec fn report_view(r: Result<(u32, u32, Vec<FailureItem>), String>) -> Result<(u32, u32, Seq<(Seq<char>, Seq<char>)>), Seq<char>> {
    match r {
        Ok((ok, total, f)) => Ok((ok, total, f@.map_values(|x: FailureItem| x@))),
        Err(e) => Err(e@),
    }
}

fn counted_string(prefix: &str, n: u64, suffix: &str) -> (r: String)
    ensures
        r@ == counted(prefix@, n as nat, suffix@),
{
    let mut v = chars_of(prefix);
    append_chars(&mut v, decimal_chars(n).as_slice());
    append_chars(&mut v, chars_of(suffix).as_slice());
    string_from_chars(v.as_slice())
}

fn partial_string(prefix: &str, ok: u32, total: u32, failed: usize) -> (r: String)
    ensures
        r@ == prefix@ + decimal(ok as nat) + seq!['/'] + decimal(total as nat) + " 张，失败 "@ + decimal(failed as nat),
{
    let mut v = chars_of(prefix);
    append_chars(&mut v, decimal_chars(ok as u64).as_slice());
    v.push('/');
    append_chars(&mut v, decimal_chars(total as u64).as_slice());
    append_chars(&mut v, chars_of(" 张，失败 ").as_slice());
    append_chars(&mut v, decimal_chars(failed as u64).as_slice());
    string_from_chars(v.as_slice())
}

fn concat_string(a: &str, b: &str) -> (r: String)
    ensures
        r@ == a@ + b@,
{
    let mut v = chars_of(a);
    append_chars(&mut v, chars_of(b).as_slice());
    string_from_chars(v.as_slice())
}

impl ExplorerState {
    /// Paths of the checked images, in order.
    pub fn checked_image_paths(&self) -> (r: Vec<String>)
        ensures
            r@.map_values(|s: String| s@) == checked_images(self@.checked),
    {
        let ghost c = self@.checked;
        let mut out: Vec<String> = Vec::new();
        let mut i: usize = 0;
        assert(c.take(0) =~= Seq::<ItemView>::empty());
        while i < self.checked.len()
            invariant
                i <= self.checked.len(),
                c == items_view(self.checked@),
                out@.map_values(|s: String| s@) == checked_images(c.take(i as int)),
            decreases self.checked.len() - i,
        {
            assert(c.take(i + 1).drop_last() =~= c.take(i as int));
            assert(c.take(i + 1).last() == self.checked@[i as int]@);
            if self.checked[i].is_image {
                let ghost before = out@.map_values(|s: String| s@);
                out.push(copy_string(&self.checked[i].path));
                assert(out@.map_values(|s: String| s@) =~= before.push(c[i as int].path));
            }
            i = i + 1;
        }
        assert(c.take(i as int) =~= c);
        out
    }

    fn start_batch(&mut self, verb: &str) -> (r: Option<Vec<String>>)
        ensures
            final(self)@ == batch_start(old(self)@, verb@).0,
            match (r, batch_start(old(self)@, verb@).1) {
                (Some(v), Some(p)) => v@.map_values(|s: String| s@) == p,
                (None, None) => true,
                _ => false,
            },
    {
        if self.busy {
            return None;
        }
        let paths = self.checked_image_paths();
        if paths.len() == 0 {
            self.status = "请先勾选图片".to_owned();
            assert(self@ =~= batch_start(old(self)@, verb@).0);
            return None;
        }
        self.busy = true;
        self.status = counted_string(verb, paths.len() as u64, " 张…");
        assert(self@ =~= batch_start(old(self)@, verb@).0);
        Some(paths)
    }

    #[verifier::rlimit(50)]
    fn end_batch(
        &mut self,
        report: Result<(u32, u32, Vec<FailureItem>), String>,
        all_done: &str,
        part_done: &str,
        title: &str,
        failed: &str,
    )
        ensures
            final(self)@ == batch_end(old(self)@, report_view(report), all_done@, part_done@, title@, failed@),
    {
        let ghost rv = report_view(report);
        match report {
            Err(e) => {
                self.status = concat_string(failed, e.as_str());
            },
            Ok((ok, total, fails)) => {
                if total == 0 {
                    self.status = "请先勾选图片".to_owned();
                } else if fails.len() == 0 {
                    self.status = counted_string(all_done, ok as u64, " 张");
                } else {
                    self.status = partial_string(part_done, ok, total, fails.len());
                    let ghost fv = fails@.map_values(|x: FailureItem| x@);
                    self.failure_report = Some(FailureReport { title: title.to_owned(), failures: fails });
                    assert(self@.failure_report == Some((title@, fv)));
                }
            },
        }
        self.busy = false;
        assert(self@ =~= batch_end(old(self)@, rv, all_done@, part_done@, title@, failed@));
    }

    /// Starts marking the checked images (see [`batch_start`]); gives the
    /// paths to mark.
    pub fn begin_batch_mark(&mut self) -> (r: Option<Vec<String>>)
        ensures
            final(self)@ == batch_start(old(self)@, "正在批量标记 "@).0,
            match (r, batch_start(old(self)@, "正在批量标记 "@).1) {
                (Some(v), Some(p)) => v@.map_values(|s: String| s@) == p,
                (None, None) => true,
                _ => false,
            },
    {
        self.start_batch("正在批量标记 ")
    }

    /// Shows how marking ended: the count marked and the total, and the
    /// failures (see [`batch_end`]).
    pub fn finish_batch_mark(&mut self, report: Result<(u32, u32, Vec<FailureItem>), String>)
        ensures
            final(self)@ == batch_end(old(self)@, report_view(report), "已批量标记 "@, "已标记 "@, "批量标记失败"@, "批量标记失败："@),
    {
        self.end_batch(report, "已批量标记 ", "已标记 ", "批量标记失败", "批量标记失败：");
    }

    /// Starts exporting the checked images: besides the checks of
    /// [`batch_start`], an export into a typed-in folder needs a folder name;
    /// exporting into the current folder uses the explorer's directory. Gives
    /// the paths, whether they go into a folder, and the folder.
    pub fn begin_export(&mut self, dest_mode: &str, dest_dir: &str) -> (r: Option<(Vec<String>, bool, String)>)
        ensures
            ({
                let dir = if dest_mode@ == "current"@ { current_dir_of(old(self)@) } else { dest_dir@ };
                let blocked = !old(self)@.busy && checked_images(old(self)@.checked).len() > 0
                    && dest_mode@ == "dir"@ && trim(dir).len() == 0;
                if blocked {
                    r is None && final(self)@ == (ExplorerView { status: "请填写导出目录"@, ..old(self)@ })
                } else {
                    final(self)@ == batch_start(old(self)@, "正在导出 "@).0 && match (r, batch_start(old(self)@, "正在导出 "@).1) {
                        (Some((v, to_dir, d)), Some(p)) => v@.map_values(|s: String| s@) == p
                            && to_dir == (dest_mode@ != "download"@) && d@ == dir,
                        (None, None) => true,
                        _ => false,
                    }
                }
            }),
    {
        let mode = chars_of(dest_mode);
        let is_current = chars_eq(mode.as_slice(), chars_of("current").as_slice());
        let is_dir = chars_eq(mode.as_slice(), chars_of("dir").as_slice());
        let is_download = chars_eq(mode.as_slice(), chars_of("download").as_slice());
        let dir = if is_current { self.current_dir_rel() } else { dest_dir.to_owned() };
        if !self.busy && is_dir && trim_chars(chars_of(dir.as_str()).as_slice()).len() == 0 {
            let paths = self.checked_image_paths();
            if paths.len() > 0 {
                self.status = "请填写导出目录".to_owned();
                return None;
            }
        }
        match self.start_batch("正在导出 ") {
            None => None,
            Some(paths) => Some((paths, !is_download, dir)),
        }
    }

    /// Shows how an export ended (see [`batch_end`]); an export into a
    /// folder that wrote anything refreshes the listings.
    pub fn finish_export(&mut self, to_dir: bool, report: Result<(u32, u32, Vec<FailureItem>), String>)
        ensures
            ({
                let ended = batch_end(old(self)@, report_view(report), "已导出 "@, "已导出 "@, "导出失败"@, "导出失败："@);
                final(self)@ == if to_dir && (report matches Ok((ok, _, _)) && ok > 0) {
                    ExplorerView { refresh: bumped(ended.refresh), ..ended }
                } else {
                    ended
                }
            }),
    {
        let wrote = match &report {
            Ok((ok, _, _)) => *ok > 0,
            Err(_) => false,
        };
        self.end_batch(report, "已导出 ", "已导出 ", "导出失败", "导出失败：");
        if to_dir && wrote {
            self.refresh = if self.refresh == u64::MAX { 0 } else { self.refresh + 1 };
        }
    }
}

} // verus!
