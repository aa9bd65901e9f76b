//! Work over a list of checked files: each path once, and a report of how
//! many succeeded and which failed and why.

use vstd::prelude::*;
use crate::explorer::FailureItem;
use crate::path::{last_segment, rel_name};
use crate::text::{chars_eq, chars_of, copy_string};

verus! {

/// The non-empty paths, each kept at its first occurrence.
pub open spec fn unique_nonempty(paths: Seq<Seq<char>>) -> Seq<Seq<char>>
    decreases paths.len(),
{
    if paths.len() == 0 {
        paths
    } else {
        let r = unique_nonempty(paths.drop_last());
        if paths.last().len() == 0 || r.contains(paths.last()) {
            r
        } else {
            r.push(paths.last())
        }
    }
}

pub open spec fn strs(v: Seq<String>) -> Seq<Seq<char>> {
    v.map_values(|s: String| s@)
}

/// `v` holds `s`.
pub fn contains_str(v: &Vec<String>, s: &str) -> (r: bool)
    ensures
        r == strs(v@).contains(s@),
{
    let x = chars_of(s);
    let mut j: usize = 0;
    while j < v.len()
        invariant
            j <= v.len(),
            x@ == s@,
            forall|k: int| 0 <= k < j ==> strs(v@)[k] != s@,
        decreases v.len() - j,
    {
        if chars_eq(chars_of(v[j].as_str()).as_slice(), x.as_slice()) {
            assert(strs(v@)[j as int] == s@);
            return true;
        }
        j = j + 1;
    }
    assert(!strs(v@).contains(s@)) by {
        if strs(v@).contains(s@) {
            let k = choose|k: int| 0 <= k < strs(v@).len() && strs(v@)[k] == s@;
            assert(strs(v@)[k] != s@);
        }
    }
    false
}

/// The non-empty paths, each once, in the order of their first occurrence.
pub fn unique_paths(paths: &Vec<String>) -> (r: Vec<String>)
    ensures
        strs(r@) == unique_nonempty(strs(paths@)),
{
    let ghost ps = strs(paths@);
    let mut out: Vec<String> = Vec::new();
    let mut i: usize = 0;
    assert(ps.take(0) =~= Seq::<Seq<char>>::empty());
    while i < paths.len()
        invariant
            i <= paths.len(),
            ps == strs(paths@),
            strs(out@) == unique_nonempty(ps.take(i as int)),
        decreases paths.len() - i,
    {
        assert(ps.take(i + 1).drop_last() =~= ps.take(i as int));
        assert(ps.take(i + 1).last() == ps[i as int]);
        let p = &paths[i];
        if !p.as_str().is_empty() && !contains_str(&out, p.as_str()) {
            let ghost before = strs(out@);
            out.push(copy_string(p));
            assert(strs(out@) =~= before.push(ps[i as int]));
        } else {
            proof {
                if p@.len() > 0 {
                    assert(strs(out@).contains(p@));
                }
            }
        }
        i = i + 1;
    }
    assert(ps.take(i as int) =~= ps);
    out
}

/// The report for an empty selection: nothing done, one failure saying so.
pub fn nothing_checked() -> (r: Vec<FailureItem>)
    ensures
        r@.len() == 1,
        r@[0].file@ == Seq::<char>::empty(),
        r@[0].error@ == "没有已勾选的图片"@,
{
    let mut v: Vec<FailureItem> = Vec::new();
    v.push(FailureItem { file: String::new(), error: "没有已勾选的图片".to_owned() });
    v
}

/// What became of one file of a batch.
#[derive(Debug)]
pub enum ItemOutcome {
    /// The work succeeded.
    Done,
    /// The path resolved to something that is not a file.
    NotFile,
    /// The path did not resolve, with the reason.
    Unresolved(String),
    /// The work on the file failed, with the reason.
    Failed(String),
}

/// The failure (file, message) that an outcome for `rel` reports, if any:
/// a file that could not be found or is no file is named by its last
/// segment, one whose work failed by its whole path.
pub open spec fn failure_of(rel: Seq<char>, o: ItemOutcome) -> Option<(Seq<char>, Seq<char>)> {
    match o {
        ItemOutcome::Done => None,
        ItemOutcome::NotFile => Some((last_segment(rel), "不是文件"@)),
        ItemOutcome::Unresolved(e) => Some((last_segment(rel), e@)),
        ItemOutcome::Failed(e) => Some((rel, e@)),
    }
}

/// The failures of a batch, in order.
pub open spec fn failures_of(rels: Seq<Seq<char>>, outs: Seq<ItemOutcome>) -> Seq<(Seq<char>, Seq<char>)>
    decreases outs.len(),
{
    if outs.len() == 0 || rels.len() < outs.len() {
        Seq::empty()
    } else {
        let before = failures_of(rels, outs.drop_last());
        match failure_of(rels[outs.len() - 1], outs.last()) {
            Some(f) => before.push(f),
            None => before,
        }
    }
}

/// How many outcomes are successes.
pub open spec fn done_count(outs: Seq<ItemOutcome>) -> nat
    decreases outs.len(),
{
    if outs.len() == 0 {
        0
    } else {
        done_count(outs.drop_last()) + if outs.last() is Done { 1nat } else { 0nat }
    }
}

proof fn lemma_done_count_bound(outs: Seq<ItemOutcome>)
    ensures
        done_count(outs) <= outs.len(),
    decreases outs.len(),
{
    if outs.len() > 0 {
        lemma_done_count_bound(outs.drop_last());
    }
}

pub open spec fn failure_views(v: Seq<FailureItem>) -> Seq<(Seq<char>, Seq<char>)> {
    v.map_values(|f: FailureItem| (f.file@, f.error@))
}

/// The number of successes and the failures (in order) of a batch whose
/// `i`-th outcome belongs to the `i`-th path.
pub fn tally(rels: &Vec<String>, outcomes: &Vec<ItemOutcome>) -> (r: (u32, Vec<FailureItem>))
    requires
        outcomes@.len() <= rels@.len(),
        outcomes@.len() <= u32::MAX,
    ensures
        r.0 as nat == done_count(outcomes@),
        failure_views(r.1@) == failures_of(strs(rels@), outcomes@),
{
    let ghost rs = strs(rels@);
    let mut ok: u32 = 0;
    let mut failures: Vec<FailureItem> = Vec::new();
    let mut i: usize = 0;
    assert(outcomes@.take(0) =~= Seq::<ItemOutcome>::empty());
    while i < outcomes.len()
        invariant
            i <= outcomes.len(),
            outcomes@.len() <= rels@.len(),
            outcomes@.len() <= u32::MAX,
            rs == strs(rels@),
            ok as nat == done_count(outcomes@.take(i as int)),
            failure_views(failures@) == failures_of(rs, outcomes@.take(i as int)),
        decreases outcomes.len() - i,
    {
        let ghost t = outcomes@.take(i + 1);
        assert(t.drop_last() =~= outcomes@.take(i as int));
        assert(t.last() == outcomes@[i as int]);
        proof { lemma_done_count_bound(outcomes@.take(i as int)); }
        let ghost before = failure_views(failures@);
        let rel = &rels[i];
        match &outcomes[i] {
            ItemOutcome::Done => {
                ok = ok + 1;
            },
            ItemOutcome::NotFile => {
                failures.push(FailureItem { file: rel_name(rel.as_str()), error: "不是文件".to_owned() });
                assert(failure_views(failures@) =~= before.push((last_segment(rs[i as int]), "不是文件"@)));
            },
            ItemOutcome::Unresolved(e) => {
                failures.push(FailureItem { file: rel_name(rel.as_str()), error: copy_string(e) });
                assert(failure_views(failures@) =~= before.push((last_segment(rs[i as int]), e@)));
            },
            ItemOutcome::Failed(e) => {
                failures.push(FailureItem { file: copy_string(rel), error: copy_string(e) });
                assert(failure_views(failures@) =~= before.push((rs[i as int], e@)));
            },
        }
        i = i + 1;
    }
    assert(outcomes@.take(i as int) =~= outcomes@);
    (ok, failures)
}

} // verus!
