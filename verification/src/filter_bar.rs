//! The gallery filter bar's decisions: the label of its confirm button,
//! when a filter request goes out and with what, what its answer sets, and
//! what resetting it does.

use vstd::prelude::*;
use crate::media::{parse_u64, parsed_u64};
use crate::text::{chars_of, concat, copy_string, decimal, decimal_string};

verus! {

/// The choices and progress of the filter bar.
pub struct FilterBarState {
    /// Star comparison: `any`, `lt`, `le`, `eq`, `ge` or `gt`.
    pub star_op: String,
    /// Star value as chosen (a digit text).
    pub star_val: String,
    /// Tag comparison: `eq`, `contains` or `excludes`.
    pub tag_mode: String,
    /// Tag query text.
    pub tag_query: String,
    /// Keep the images that do not match instead.
    pub complement: bool,
    /// A filter request is under way.
    pub applying: bool,
    /// The folder's metadata index is ready.
    pub ready: bool,
    /// Images indexed so far and in all.
    pub progress: (u32, u32),
}

/// A filter request: star comparison and value, tag comparison and query,
/// and whether the complement is asked for.
pub struct FilterRequest {
    pub star_op: String,
    pub star_val: u8,
    pub tag_mode: String,
    pub tag_query: String,
    pub complement: bool,
}

/// `u8::from_str`: an optional `+`, then at least one digit, and a value
/// that fits.
pub open spec fn parsed_u8(s: Seq<char>) -> Option<u8> {
    match parsed_u64(s) {
        Some(v) => if v <= 255 { Some(v as u8) } else { None },
        None => None,
    }
}

/// The confirm button's label: apply when the index is ready, else the
/// reading progress (without counts while the total is unknown).
pub open spec fn confirm_label(ready: bool, done: u32, total: u32) -> Seq<char> {
    if ready {
        "应用筛选"@
    } else if total == 0 {
        "读取元数据…"@
    } else {
        "读取元数据 "@ + decimal(done as nat) + "/"@ + decimal(total as nat)
    }
}

impl FilterBarState {
    /// A bar with no conditions, waiting for the index.
    pub fn new() -> (r: FilterBarState)
        ensures
            r.star_op@ == "any"@,
            r.star_val@ == "0"@,
            r.tag_mode@ == "contains"@,
            r.tag_query@.len() == 0,
            !r.complement,
            !r.applying,
            !r.ready,
            r.progress == (0u32, 0u32),
    {
        FilterBarState {
            star_op: "any".to_owned(),
            star_val: "0".to_owned(),
            tag_mode: "contains".to_owned(),
            tag_query: String::new(),
            complement: false,
            applying: false,
            ready: false,
            progress: (0, 0),
        }
    }

    /// The index status was polled: its counts and readiness are taken.
    pub fn index_status(&mut self, done: u32, total: u32, ready: bool)
        ensures
            final(self).progress == (done, total),
            final(self).ready == ready,
            final(self).star_op == old(self).star_op,
            final(self).star_val == old(self).star_val,
            final(self).tag_mode == old(self).tag_mode,
            final(self).tag_query == old(self).tag_query,
            final(self).complement == old(self).complement,
            final(self).applying == old(self).applying,
    {
        self.progress = (done, total);
        self.ready = ready;
    }

    /// The confirm button's label (see [`confirm_label`]).
    pub fn confirm_label(&self) -> (r: String)
        ensures
            r@ == confirm_label(self.ready, self.progress.0, self.progress.1),
    {
        if self.ready {
            "应用筛选".to_owned()
        } else if self.progress.1 == 0 {
            "读取元数据…".to_owned()
        } else {
            let a = concat("读取元数据 ", decimal_string(self.progress.0 as u64).as_str());
            let b = concat(a.as_str(), "/");
            concat(b.as_str(), decimal_string(self.progress.1 as u64).as_str())
        }
    }

    /// Confirm: when the index is ready and no request is under way, the bar
    /// becomes busy and gives the request (a star value that does not parse
    /// counts as 0); else nothing happens.
    pub fn confirm(&mut self) -> (r: Option<FilterRequest>)
        ensures
            !old(self).ready || old(self).applying ==> r is None && final(self).applying == old(self).applying,
            old(self).ready && !old(self).applying ==> final(self).applying && (r matches Some(q) && q.star_op@
                == old(self).star_op@ && q.star_val == (match parsed_u8(old(self).star_val@) {
                Some(v) => v,
                None => 0u8,
            }) && q.tag_mode@ == old(self).tag_mode@ && q.tag_query@ == old(self).tag_query@ && q.complement
                == old(self).complement),
            final(self).star_op == old(self).star_op,
            final(self).star_val == old(self).star_val,
            final(self).tag_mode == old(self).tag_mode,
            final(self).tag_query == old(self).tag_query,
            final(self).complement == old(self).complement,
            final(self).ready == old(self).ready,
            final(self).progress == old(self).progress,
    {
        if !self.ready || self.applying {
            return None;
        }
        let v = chars_of(self.star_val.as_str());
        let star_val = match parse_u64(v.as_slice()) {
            Some(n) => if n <= 255 { n as u8 } else { 0 },
            None => 0,
        };
        self.applying = true;
        Some(FilterRequest {
            star_op: copy_string(&self.star_op),
            star_val,
            tag_mode: copy_string(&self.tag_mode),
            tag_query: copy_string(&self.tag_query),
            complement: self.complement,
        })
    }

    /// The request's answer came: the bar is no longer busy. Gives the
    /// status (`已筛选 n 张`, or `筛选失败：` and the error) and the paths
    /// to show (none on failure, which leaves the shown set as it was).
    pub fn finish(&mut self, result: Result<Vec<String>, String>) -> (r: (String, Option<Vec<String>>))
        ensures
            !final(self).applying,
            final(self).ready == old(self).ready,
            final(self).progress == old(self).progress,
            final(self).star_op == old(self).star_op,
            final(self).star_val == old(self).star_val,
            final(self).tag_mode == old(self).tag_mode,
            final(self).tag_query == old(self).tag_query,
            final(self).complement == old(self).complement,
            match result {
                Ok(paths) => r.0@ == "已筛选 "@ + decimal(paths.len() as nat) + " 张"@ && r.1 == Some(paths),
                Err(e) => r.0@ == "筛选失败："@ + e@ && r.1 is None,
            },
    {
        self.applying = false;
        match result {
            Ok(paths) => {
                let a = concat("已筛选 ", decimal_string(paths.len() as u64).as_str());
                let s = concat(a.as_str(), " 张");
                (s, Some(paths))
            },
            Err(e) => (concat("筛选失败：", e.as_str()), None),
        }
    }

    /// Reset: every condition back to its default. Gives the status; the
    /// shown set is to be cleared.
    pub fn reset(&mut self) -> (r: String)
        ensures
            final(self).star_op@ == "any"@,
            final(self).star_val@ == "0"@,
            final(self).tag_mode@ == "contains"@,
            final(self).tag_query@.len() == 0,
            !final(self).complement,
            final(self).applying == old(self).applying,
            final(self).ready == old(self).ready,
            final(self).progress == old(self).progress,
            r@ == "已重置筛选"@,
    {
        self.star_op = "any".to_owned();
        self.star_val = "0".to_owned();
        self.tag_mode = "contains".to_owned();
        self.tag_query = String::new();
        self.complement = false;
        "已重置筛选".to_owned()
    }
}

} // verus!
