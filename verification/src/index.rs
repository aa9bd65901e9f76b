//! The metadata index of the shown folder: a scan fills it with each image's
//! rating and tags, edits keep it current, and filters read it once the
//! scan is complete.

use vstd::prelude::*;
use crate::filter::{normalize_tag_text, normalized, select_rows, selected_paths, MetaRow};
use crate::text::{chars_eq, chars_of, copy_string};

verus! {

/// Progress of the index of a folder.
#[derive(Clone, Copy, Debug, PartialEq, Eq, Structural)]
pub struct MetaScanStatus {
    pub ready: bool,
    pub done: u32,
    pub total: u32,
}

/// The index: its rows in scan order, the folder and listing epoch it was
/// built for, the number of the current scan, how many images the scan
/// covers and whether it has finished.
pub struct IndexState {
    pub rows: Vec<MetaRow>,
    pub dir: String,
    pub epoch: u64,
    pub gen: u64,
    pub total: u32,
    pub ready: bool,
}

/// One row as values.
pub open spec fn row_view(r: MetaRow) -> (Seq<char>, i64, Seq<char>) {
    (r.path@, r.rating, r.tags@)
}

/// Mathematical form of a [`IndexState`].
#[verifier::ext_equal]
pub struct IndexView {
    pub rows: Seq<(Seq<char>, i64, Seq<char>)>,
    pub dir: Seq<char>,
    pub epoch: u64,
    pub gen: u64,
    pub total: u32,
    pub ready: bool,
}

impl View for IndexState {
    type V = IndexView;

    open spec fn view(&self) -> IndexView {
        IndexView {
            rows: self.rows@.map_values(|r: MetaRow| row_view(r)),
            dir: self.dir@,
            epoch: self.epoch,
            gen: self.gen,
            total: self.total,
            ready: self.ready,
        }
    }
}

/// The rows without the one for `path` (if any), in order.
pub open spec fn rows_without(rows: Seq<(Seq<char>, i64, Seq<char>)>, path: Seq<char>) -> Seq<(Seq<char>, i64, Seq<char>)>
    decreases rows.len(),
{
    if rows.len() == 0 {
        rows
    } else if rows.last().0 == path {
        rows_without(rows.drop_last(), path)
    } else {
        rows_without(rows.drop_last(), path).push(rows.last())
    }
}

/// The rows with the rating of `path` replaced.
pub open spec fn with_rating(rows: Seq<(Seq<char>, i64, Seq<char>)>, path: Seq<char>, rating: i64) -> Seq<(Seq<char>, i64, Seq<char>)> {
    rows.map_values(|r: (Seq<char>, i64, Seq<char>)| if r.0 == path { (r.0, rating, r.2) } else { r })
}

/// The rows with the tags of `path` replaced.
pub open spec fn with_tags(rows: Seq<(Seq<char>, i64, Seq<char>)>, path: Seq<char>, tags: Seq<char>) -> Seq<(Seq<char>, i64, Seq<char>)> {
    rows.map_values(|r: (Seq<char>, i64, Seq<char>)| if r.0 == path { (r.0, r.1, tags) } else { r })
}

impl IndexState {
    /// An empty index that belongs to no folder yet.
    pub fn new() -> (r: IndexState)
        ensures
            r@ == (IndexView {
                rows: Seq::empty(),
                dir: Seq::empty(),
                epoch: u64::MAX,
                gen: 0,
                total: 0,
                ready: false,
            }),
    {
        let r = IndexState { rows: Vec::new(), dir: String::new(), epoch: u64::MAX, gen: 0, total: 0, ready: false };
        assert(r@.rows =~= Seq::<(Seq<char>, i64, Seq<char>)>::empty());
        r
    }

    /// Starts a new scan of `dir` for listing `epoch`, emptying the index,
    /// and returns its number; nothing happens (and none is returned) when
    /// the index already belongs to this folder and epoch.
    pub fn begin(&mut self, dir: &str, epoch: u64) -> (r: Option<u64>)
        requires
            old(self)@.gen < u64::MAX,
        ensures
            old(self)@.gen > 0 && old(self)@.dir == dir@ && old(self)@.epoch == epoch ==> r is None
                && final(self)@ == old(self)@,
            !(old(self)@.gen > 0 && old(self)@.dir == dir@ && old(self)@.epoch == epoch) ==> r == Some(
                (old(self)@.gen + 1) as u64,
            ) && final(self)@ == (IndexView {
                rows: Seq::empty(),
                dir: dir@,
                epoch,
                gen: (old(self)@.gen + 1) as u64,
                total: 0,
                ready: false,
            }),
    {
        if self.gen > 0 && chars_eq(chars_of(self.dir.as_str()).as_slice(), chars_of(dir).as_slice()) && self.epoch == epoch {
            return None;
        }
        self.gen = self.gen + 1;
        self.dir = dir.to_owned();
        self.epoch = epoch;
        self.total = 0;
        self.ready = false;
        self.rows = Vec::new();
        assert(self@.rows =~= Seq::<(Seq<char>, i64, Seq<char>)>::empty());
        Some(self.gen)
    }

    /// Scan number `gen` is still the current one.
    pub fn is_current(&self, gen: u64) -> (r: bool)
        ensures
            r == (self@.gen == gen),
    {
        self.gen == gen
    }

    /// Listing the folder for scan `gen` failed: the scan counts as done.
    pub fn listing_failed(&mut self, gen: u64)
        ensures
            final(self)@ == (if old(self)@.gen == gen { IndexView { ready: true, ..old(self)@ } } else { old(self)@ }),
    {
        if self.gen == gen {
            self.ready = true;
        }
    }

    /// Scan `gen` found `count` images; returns whether they are to be read
    /// (the scan is current and found any). A current scan records the count
    /// and is done at once when it found none.
    pub fn listed(&mut self, gen: u64, count: usize) -> (r: bool)
        ensures
            r == (old(self)@.gen == gen && count > 0),
            old(self)@.gen != gen ==> final(self)@ == old(self)@,
            old(self)@.gen == gen ==> final(self)@ == (IndexView {
                total: count as u32,
                ready: if count == 0 { true } else { old(self)@.ready },
                ..old(self)@
            }),
    {
        if self.gen != gen {
            return false;
        }
        #[verifier::truncate]
        let n: u32 = count as u32;
        self.total = n;
        if count == 0 {
            self.ready = true;
            return false;
        }
        true
    }

    /// Records what scan `gen` read for an image (tags normalized), in place
    /// of an earlier row for the same path; returns whether the scan is
    /// still current (nothing is recorded when it is not).
    pub fn record(&mut self, gen: u64, rel: &str, rating: u8, tags: &str) -> (r: bool)
        ensures
            r == (old(self)@.gen == gen),
            old(self)@.gen != gen ==> final(self)@ == old(self)@,
            old(self)@.gen == gen ==> final(self)@ == (IndexView {
                rows: rows_without(old(self)@.rows, rel@).push((rel@, rating as i64, normalized(tags@))),
                ..old(self)@
            }),
    {
        if self.gen != gen {
            return false;
        }
        let p = chars_of(rel);
        let ghost rs = self@.rows;
        let mut kept: Vec<MetaRow> = Vec::new();
        let mut i: usize = 0;
        assert(rs.take(0) =~= Seq::<(Seq<char>, i64, Seq<char>)>::empty());
        while i < self.rows.len()
            invariant
                i <= self.rows.len(),
                rs == self.rows@.map_values(|r: MetaRow| row_view(r)),
                p@ == rel@,
                kept@.map_values(|r: MetaRow| row_view(r)) == rows_without(rs.take(i as int), rel@),
            decreases self.rows.len() - i,
        {
            assert(rs.take(i + 1).drop_last() =~= rs.take(i as int));
            assert(rs.take(i + 1).last() == rs[i as int]);
            let row = &self.rows[i];
            if !chars_eq(chars_of(row.path.as_str()).as_slice(), p.as_slice()) {
                let ghost before = kept@.map_values(|r: MetaRow| row_view(r));
                kept.push(MetaRow { path: copy_string(&row.path), rating: row.rating, tags: copy_string(&row.tags) });
                assert(kept@.map_values(|r: MetaRow| row_view(r)) =~= before.push(rs[i as int]));
            }
            i = i + 1;
        }
        assert(rs.take(i as int) =~= rs);
        let ghost before = kept@.map_values(|r: MetaRow| row_view(r));
        kept.push(MetaRow { path: rel.to_owned(), rating: rating as i64, tags: normalize_tag_text(tags) });
        assert(kept@.map_values(|r: MetaRow| row_view(r)) =~= before.push((rel@, rating as i64, normalized(tags@))));
        self.rows = kept;
        true
    }

    /// Scan `gen` of `dir` ended: the index is ready if that scan is still
    /// the current one of the same folder.
    pub fn finished(&mut self, gen: u64, dir: &str)
        ensures
            final(self)@ == (if old(self)@.gen == gen && old(self)@.dir == dir@ {
                IndexView { ready: true, ..old(self)@ }
            } else {
                old(self)@
            }),
    {
        if self.gen == gen && chars_eq(chars_of(self.dir.as_str()).as_slice(), chars_of(dir).as_slice()) {
            self.ready = true;
        }
    }

    /// A changed rating of `rel` is written into its row, if it has one.
    pub fn touch_rating(&mut self, rel: &str, rating: u8)
        ensures
            final(self)@ == (IndexView { rows: with_rating(old(self)@.rows, rel@, rating as i64), ..old(self)@ }),
    {
        let p = chars_of(rel);
        let ghost rs = self@.rows;
        let mut i: usize = 0;
        while i < self.rows.len()
            invariant
                i <= self.rows.len(),
                self.rows@.len() == rs.len(),
                p@ == rel@,
                self@.dir == old(self)@.dir && self@.epoch == old(self)@.epoch && self@.gen == old(self)@.gen,
                self@.total == old(self)@.total && self@.ready == old(self)@.ready,
                rs == old(self)@.rows,
                forall|k: int| 0 <= k < i ==> #[trigger] row_view(self.rows@[k]) == with_rating(rs, rel@, rating as i64)[k],
                forall|k: int| i <= k < rs.len() ==> #[trigger] row_view(self.rows@[k]) == rs[k],
            decreases self.rows.len() - i,
        {
            assert(row_view(self.rows@[i as int]) == rs[i as int]);
            assert(with_rating(rs, rel@, rating as i64)[i as int] == (if rs[i as int].0 == rel@ {
                (rs[i as int].0, rating as i64, rs[i as int].2)
            } else {
                rs[i as int]
            }));
            if chars_eq(chars_of(self.rows[i].path.as_str()).as_slice(), p.as_slice()) {
                let row = MetaRow { path: copy_string(&self.rows[i].path), rating: rating as i64, tags: copy_string(&self.rows[i].tags) };
                self.rows.set(i, row);
            }
            assert(row_view(self.rows@[i as int]) == with_rating(rs, rel@, rating as i64)[i as int]);
            i = i + 1;
        }
        assert(self@.rows =~= with_rating(rs, rel@, rating as i64));
    }

    /// Changed tags of `rel` (normalized) are written into its row, if it
    /// has one.
    pub fn touch_tags(&mut self, rel: &str, tags: &str)
        ensures
            final(self)@ == (IndexView { rows: with_tags(old(self)@.rows, rel@, normalized(tags@)), ..old(self)@ }),
    {
        let t = normalize_tag_text(tags);
        let p = chars_of(rel);
        let ghost rs = self@.rows;
        let mut i: usize = 0;
        while i < self.rows.len()
            invariant
                i <= self.rows.len(),
                self.rows@.len() == rs.len(),
                p@ == rel@,
                t@ == normalized(tags@),
                self@.dir == old(self)@.dir && self@.epoch == old(self)@.epoch && self@.gen == old(self)@.gen,
                self@.total == old(self)@.total && self@.ready == old(self)@.ready,
                rs == old(self)@.rows,
                forall|k: int| 0 <= k < i ==> #[trigger] row_view(self.rows@[k]) == with_tags(rs, rel@, normalized(tags@))[k],
                forall|k: int| i <= k < rs.len() ==> #[trigger] row_view(self.rows@[k]) == rs[k],
            decreases self.rows.len() - i,
        {
            assert(row_view(self.rows@[i as int]) == rs[i as int]);
            assert(with_tags(rs, rel@, normalized(tags@))[i as int] == (if rs[i as int].0 == rel@ {
                (rs[i as int].0, rs[i as int].1, normalized(tags@))
            } else {
                rs[i as int]
            }));
            if chars_eq(chars_of(self.rows[i].path.as_str()).as_slice(), p.as_slice()) {
                let row = MetaRow { path: copy_string(&self.rows[i].path), rating: self.rows[i].rating, tags: copy_string(&t) };
                self.rows.set(i, row);
            }
            assert(row_view(self.rows@[i as int]) == with_tags(rs, rel@, normalized(tags@))[i as int]);
            i = i + 1;
        }
        assert(self@.rows =~= with_tags(rs, rel@, normalized(tags@)));
    }

    /// Progress of the index for `dir`: all zero and not ready when the
    /// index belongs to another folder.
    pub fn status(&self, dir: &str) -> (r: MetaScanStatus)
        ensures
            self@.dir != dir@ ==> r == (MetaScanStatus { ready: false, done: 0, total: 0 }),
            self@.dir == dir@ ==> r == (MetaScanStatus {
                ready: self@.ready,
                done: self@.rows.len() as u32,
                total: self@.total,
            }),
    {
        if !chars_eq(chars_of(self.dir.as_str()).as_slice(), chars_of(dir).as_slice()) {
            return MetaScanStatus { ready: false, done: 0, total: 0 };
        }
        #[verifier::truncate]
        let done: u32 = self.rows.len() as u32;
        MetaScanStatus { ready: self.ready, done, total: self.total }
    }

    /// The paths of the folder's images that pass the star and tag filters
    /// (or fail them, for the complement), in scan order; an error while the
    /// index belongs to another folder or is still being read.
    pub fn filter(
        &self,
        dir: &str,
        star_op: &str,
        star_val: u8,
        tag_mode: &str,
        tag_query: &str,
        complement: bool,
    ) -> (r: Result<Vec<String>, String>)
        ensures
            self@.dir != dir@ ==> (r matches Err(e) && e@ == "目录已切换，请等待元数据读取"@),
            self@.dir == dir@ && !self@.ready ==> (r matches Err(e) && e@ == "元数据尚未读完"@),
            self@.dir == dir@ && self@.ready ==> (r matches Ok(v) && v@.map_values(|s: String| s@)
                == selected_paths(self.rows@, star_op@, star_val, tag_mode@, tag_query@, complement)),
    {
        if !chars_eq(chars_of(self.dir.as_str()).as_slice(), chars_of(dir).as_slice()) {
            return Err("目录已切换，请等待元数据读取".to_owned());
        }
        if !self.ready {
            return Err("元数据尚未读完".to_owned());
        }
        Ok(select_rows(&self.rows, star_op, star_val, tag_mode, tag_query, complement))
    }
}

} // verus!
