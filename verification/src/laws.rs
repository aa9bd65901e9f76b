//! Properties that hold across the library's functions: the sandbox keeps
//! every resolved path inside the root, copies never land on a taken name,
//! and the explorer's bookkeeping keeps its invariant.

use vstd::prelude::*;
use crate::text::{ascii_lower, eq_ignore_ascii_case, lemma_rfind, rfind, split_on, starts_with};
use crate::path::{image_exts, image_name, is_image_ext};
use crate::path::rewritten;
use crate::explorer::{
    after_rename, first_occurrences, retarget_item, retarget_view, after_mkdir, after_mkfile, after_paste, paste_forgets, set_insert, after_delete, delete_forgets, leading_ok, add_missing, after_check_all, listing_items, checked_after_set, clip_items_without, explorer_wf, forget_view, index_of_path, items_without,
    lemma_index_of_path, no_repeats, seq_without, seq_without_tree, unique_paths, ClipItemView,
    ExplorerView, ItemView,
};
use crate::filter::{dedup_tags, lowercase, normalized, star_match_spec, tags_match_spec};
use crate::sniff::{kind_of_header, FileKind};
use crate::export::{ascii_lowered, fmt_ext, kind_of_format, ExportKind, ImageFmt};
use crate::viewer::filtered_paths;
use crate::viewer::{pages_for, shown_page, FILMSTRIP_PAGE};
use crate::batch::unique_nonempty;
use crate::index::rows_without;
use crate::sandbox::{
    dest_name, first_free_index, mime_of_ext, mime_of_path, parent_and_name, path_join, rel_below, resolution,
    trim_leading_slashes, trim_trailing_slashes, under_root,
};

verus! {

proof fn lemma_starts_with_extend(a: Seq<char>, b: Seq<char>, c: Seq<char>)
    requires
        starts_with(a, b),
    ensures
        starts_with(a + c, b),
{
    assert((a + c).subrange(0, b.len() as int) =~= a.subrange(0, b.len() as int));
}

proof fn lemma_join_under_root(cp: Seq<char>, name: Seq<char>, root: Seq<char>)
    requires
        root.len() > 0,
        under_root(cp, root),
        name.len() > 0,
        name[0] != '/',
    ensures
        under_root(path_join(cp, name), root),
{
    let p = path_join(cp, name);
    if cp.len() == 0 {
        assert(!starts_with(cp, root + seq!['/']));
        assert(!starts_with(cp, root));
        assert(false);
    } else if cp.last() == '/' {
        assert(p == cp + name);
        if cp == root {
            assert(starts_with(cp, root)) by {
                assert(cp.subrange(0, root.len() as int) =~= root);
            }
            lemma_starts_with_extend(cp, root, name);
        } else if root.last() == '/' && starts_with(cp, root) {
            lemma_starts_with_extend(cp, root, name);
        } else {
            lemma_starts_with_extend(cp, root + seq!['/'], name);
        }
    } else {
        assert(p == cp + seq!['/'] + name);
        if cp == root {
            assert(starts_with(cp + seq!['/'], root + seq!['/'])) by {
                assert((cp + seq!['/']).subrange(0, (root + seq!['/']).len() as int) =~= root + seq!['/']);
            }
            lemma_starts_with_extend(cp + seq!['/'], root + seq!['/'], name);
        } else if root.last() == '/' && starts_with(cp, root) {
            lemma_starts_with_extend(cp, root, seq!['/']);
            lemma_starts_with_extend(cp + seq!['/'], root, name);
        } else {
            lemma_starts_with_extend(cp, root + seq!['/'], seq!['/']);
            lemma_starts_with_extend(cp + seq!['/'], root + seq!['/'], name);
        }
    }
}

proof fn lemma_name_no_leading_slash(target: Seq<char>)
    requires
        parent_and_name(target) is Some,
    ensures
        match parent_and_name(target) {
            Some((_, name)) => name.len() > 0 && name[0] != '/',
            None => false,
        },
{
    let t = crate::sandbox::trim_path_tail(target);
    let k = rfind(t, '/');
    lemma_rfind(t, '/');
    let name = t.subrange(k + 1, t.len() as int);
    assert(name[0] == t[k + 1]);
}

/// Whatever the file system reports, a path that resolution accepts lies
/// in the root or below it: the target's canonical form is checked, and a
/// new name is only ever joined onto a parent that lies under the root.
pub proof fn law_resolved_paths_stay_in_root(
    root: Seq<char>,
    rel: Seq<char>,
    found: Option<Result<Seq<char>, Seq<char>>>,
    parent_found: Option<Result<Seq<char>, Seq<char>>>,
)
    requires
        root.len() > 0,
        resolution(root, rel, found, parent_found) is Ok,
    ensures
        match resolution(root, rel, found, parent_found) {
            Ok(p) => under_root(p, root),
            Err(_) => true,
        },
{
    if let Ok(target) = crate::sandbox::target_of(root, rel) {
        if found is None {
            lemma_name_no_leading_slash(target);
            if let (Some((_, name)), Some(Ok(cp))) = (parent_and_name(target), parent_found) {
                lemma_join_under_root(cp, name, root);
            }
        }
    }
}

/// A relative path with a `..` segment (after its leading `/`) or a NUL
/// character is refused as an illegal path, whatever the file system holds.
pub proof fn law_escaping_paths_refused(
    root: Seq<char>,
    rel: Seq<char>,
    found: Option<Result<Seq<char>, Seq<char>>>,
    parent_found: Option<Result<Seq<char>, Seq<char>>>,
)
    requires
        split_on(trim_leading_slashes(rel), '/').contains(seq!['.', '.'])
            || trim_leading_slashes(rel).contains('\0'),
    ensures
        resolution(root, rel, found, parent_found) == Err::<Seq<char>, Seq<char>>("非法路径"@),
{
}

/// Joining a relative path onto the root and taking it relative to the root
/// again gives the relative path back (for a non-empty root, `/` among
/// them, and a relative path without a leading `/` or any `\`).
pub proof fn law_join_then_relative(root: Seq<char>, rel: Seq<char>)
    requires
        root.len() > 0,
        rel.len() > 0,
        rel[0] != '/',
        !rel.contains('\\'),
    ensures
        rel_below(path_join(root, rel), root) == rel,
{
    let full = path_join(root, rel);
    assert(rel.map_values(|c: char| if c == '\\' { '/' } else { c }) =~= rel) by {
        assert forall|i: int| 0 <= i < rel.len() implies rel[i] != '\\' by {
            if rel[i] == '\\' {
                assert(rel.contains('\\'));
            }
        }
    }
    if root.last() == '/' {
        assert(full == root + rel);
        assert(full.len() > root.len());
        assert(full != root);
        assert(starts_with(full, root)) by {
            assert(full.subrange(0, root.len() as int) =~= root);
        }
        assert(full.subrange(root.len() as int, full.len() as int) =~= rel);
    } else {
        assert(full == root + seq!['/'] + rel);
        assert(full.len() > root.len());
        assert(full != root);
        assert(starts_with(full, root + seq!['/'])) by {
            assert(full.subrange(0, root.len() as int + 1) =~= root + seq!['/']);
        }
        assert(full.subrange(root.len() as int + 1, full.len() as int) =~= rel);
    }
}

/// The root taken relative to itself is the empty path, and so is any path
/// that lies neither at nor below the root.
pub proof fn law_relative_outside_root(root: Seq<char>, full: Seq<char>)
    requires
        root.len() > 0,
    ensures
        rel_below(root, root) == Seq::<char>::empty(),
        full != root && !(root.last() == '/' && starts_with(full, root)) && !starts_with(full, root + seq!['/'])
            ==> rel_below(full, root) == Seq::<char>::empty(),
{
    assert(Seq::<char>::empty().map_values(|c: char| if c == '\\' { '/' } else { c }) =~= Seq::<char>::empty());
}

/// A relative path that resolves to its own place under the root (the file
/// system reports the joined path as its canonical form: no symbolic link
/// on the way) is given back by taking the result relative to the root.
pub proof fn law_resolve_then_relative(
    root: Seq<char>,
    rel: Seq<char>,
    parent_found: Option<Result<Seq<char>, Seq<char>>>,
)
    requires
        root.len() > 0,
        rel.len() > 0,
        rel[0] != '/',
        !rel.contains('\\'),
    ensures
        resolution(root, rel, Some(Ok(path_join(root, rel))), parent_found) matches Ok(p)
            ==> rel_below(p, root) == rel,
{
    assert(trim_leading_slashes(rel) == rel);
    law_join_then_relative(root, rel);
}

/// The name a copy receives is free in the target directory unless every
/// numbered name up to 9999 is taken too.
pub proof fn law_copy_name_is_free(name: Seq<char>, taken: Seq<Seq<char>>, i: nat)
    requires
        first_free_index(name, taken, i) < 10000,
    ensures
        !taken.contains(dest_name(name, first_free_index(name, taken, i))),
    decreases 10000 - i,
{
    if i < 10000 && taken.contains(dest_name(name, i)) {
        law_copy_name_is_free(name, taken, i + 1);
    }
}

proof fn lemma_items_without_drops(items: Seq<ItemView>, p: Seq<char>)
    ensures
        forall|j: int| 0 <= j < items_without(items, p).len() ==> (#[trigger] items_without(items, p)[j]).path != p,
        unique_paths(items) ==> unique_paths(items_without(items, p)),
        (forall|j: int| 0 <= j < items.len() ==> (#[trigger] items[j]).path.len() > 0) ==>
            forall|j: int| 0 <= j < items_without(items, p).len() ==> (#[trigger] items_without(items, p)[j]).path.len() > 0,
        forall|j: int| 0 <= j < items_without(items, p).len() ==> items.contains(#[trigger] items_without(items, p)[j]),
    decreases items.len(),
{
    if items.len() > 0 {
        let rest = items.drop_last();
        lemma_items_without_drops(rest, p);
        let w = items_without(rest, p);
        assert forall|j: int| 0 <= j < w.len() implies items.contains(#[trigger] w[j]) by {
            let k = choose|k: int| 0 <= k < rest.len() && rest[k] == w[j];
            assert(items[k] == w[j]);
        }
        if items.last().path != p {
            let r = w.push(items.last());
            assert(items.contains(items.last())) by {
                assert(items[items.len() - 1] == items.last());
            }
            if unique_paths(items) {
                assert(unique_paths(rest)) by {
                    assert forall|a: int, b: int| 0 <= a < b < rest.len() implies (#[trigger] rest[a]).path != (#[trigger] rest[b]).path by {
                        assert(rest[a] == items[a] && rest[b] == items[b]);
                    }
                }
                assert forall|a: int, b: int| 0 <= a < b < r.len() implies (#[trigger] r[a]).path != (#[trigger] r[b]).path by {
                    if b == r.len() - 1 {
                        let k = choose|k: int| 0 <= k < rest.len() && rest[k] == w[a];
                        assert(items[k] == w[a]);
                        assert(items[items.len() - 1] == items.last());
                    } else {
                        assert(r[a] == w[a] && r[b] == w[b]);
                    }
                }
            }
            assert forall|j: int| 0 <= j < r.len() implies items.contains(#[trigger] r[j]) by {
                if j < w.len() {
                    assert(r[j] == w[j]);
                }
            }
            if forall|j: int| 0 <= j < items.len() ==> (#[trigger] items[j]).path.len() > 0 {
                assert forall|j: int| 0 <= j < rest.len() implies (#[trigger] rest[j]).path.len() > 0 by {
                    assert(rest[j] == items[j]);
                }
                assert(items[items.len() - 1] == items.last());
            }
        } else {
            if unique_paths(items) {
                assert forall|a: int, b: int| 0 <= a < b < rest.len() implies (#[trigger] rest[a]).path != (#[trigger] rest[b]).path by {
                    assert(rest[a] == items[a] && rest[b] == items[b]);
                }
            }
            if forall|j: int| 0 <= j < items.len() ==> (#[trigger] items[j]).path.len() > 0 {
                assert forall|j: int| 0 <= j < rest.len() implies (#[trigger] rest[j]).path.len() > 0 by {
                    assert(rest[j] == items[j]);
                }
            }
        }
    }
}

proof fn lemma_clip_items_without_drops(items: Seq<ClipItemView>, p: Seq<char>)
    ensures
        forall|j: int| 0 <= j < clip_items_without(items, p).len() ==> (#[trigger] clip_items_without(items, p)[j]).path != p,
    decreases items.len(),
{
    if items.len() > 0 {
        lemma_clip_items_without_drops(items.drop_last(), p);
        let w = clip_items_without(items.drop_last(), p);
        if items.last().path != p {
            assert forall|m: int| 0 <= m < w.len() + 1 implies (#[trigger] w.push(items.last())[m]).path != p by {
                if m < w.len() {
                    assert(w.push(items.last())[m] == w[m]);
                }
            }
        }
    }
}

proof fn lemma_seq_without_drops(s: Seq<Seq<char>>, x: Seq<char>)
    ensures
        !seq_without(s, x).contains(x),
        forall|y: Seq<char>| #[trigger] seq_without(s, x).contains(y) <==> (s.contains(y) && y != x),
        no_repeats(s) ==> no_repeats(seq_without(s, x)),
    decreases s.len(),
{
    if s.len() > 0 {
        let rest = s.drop_last();
        lemma_seq_without_drops(rest, x);
        let w = seq_without(rest, x);
        assert forall|y: Seq<char>| #[trigger] seq_without(s, x).contains(y) <==> (s.contains(y) && y != x) by {
            if s.contains(y) && y != x {
                let k = choose|k: int| 0 <= k < s.len() && s[k] == y;
                if k < s.len() - 1 {
                    assert(rest[k] == y);
                    assert(rest.contains(y));
                    assert(w.contains(y));
                    let m = choose|m: int| 0 <= m < w.len() && w[m] == y;
                    if s.last() != x {
                        assert(w.push(s.last())[m] == y);
                    }
                } else if s.last() != x {
                    assert(w.push(s.last())[w.len() as int] == y);
                }
            }
            if seq_without(s, x).contains(y) {
                let m = choose|m: int| 0 <= m < seq_without(s, x).len() && seq_without(s, x)[m] == y;
                if m < w.len() {
                    if s.last() != x {
                        assert(w.push(s.last())[m] == w[m]);
                    }
                    assert(w[m] == y);
                    assert(w.contains(y));
                    let k = choose|k: int| 0 <= k < rest.len() && rest[k] == y;
                    assert(s[k] == y);
                } else {
                    assert(s.last() != x);
                    assert(w.push(s.last())[m] == s.last());
                    assert(s[s.len() - 1] == y);
                }
            }
        }
        if no_repeats(s) {
            assert(no_repeats(rest)) by {
                assert forall|a: int, b: int| 0 <= a < b < rest.len() implies #[trigger] rest[a] != #[trigger] rest[b] by {
                    assert(rest[a] == s[a] && rest[b] == s[b]);
                }
            }
            if s.last() != x {
                let r = w.push(s.last());
                assert forall|a: int, b: int| 0 <= a < b < r.len() implies #[trigger] r[a] != #[trigger] r[b] by {
                    if b == r.len() - 1 {
                        assert(r[a] == w[a]);
                        assert(w.contains(w[a]));
                        assert(rest.contains(w[a]));
                        let k = choose|k: int| 0 <= k < rest.len() && rest[k] == w[a];
                        assert(s[k] == rest[k]);
                        assert(s[s.len() - 1] == s.last());
                    } else {
                        assert(r[a] == w[a] && r[b] == w[b]);
                    }
                }
            }
        }
    }
}

proof fn lemma_seq_without_tree_drops(s: Seq<Seq<char>>, p: Seq<char>)
    ensures
        !seq_without_tree(s, p).contains(p),
    decreases s.len(),
{
    if s.len() > 0 {
        lemma_seq_without_tree_drops(s.drop_last(), p);
        let w = seq_without_tree(s.drop_last(), p);
        if s.last() != p && !starts_with(s.last(), p + seq!['/']) {
            assert forall|m: int| 0 <= m < w.len() + 1 implies (#[trigger] w.push(s.last())[m]) != p by {
                if m < w.len() {
                    assert(w.push(s.last())[m] == w[m]);
                    assert(w.contains(w[m]) ==> w[m] != p);
                }
            }
        }
    }
}

/// Checking an entry makes it checked, unchecking it makes it unchecked,
/// and either keeps every checked path unique and non-empty.
pub proof fn law_check_and_uncheck(checked: Seq<ItemView>, item: ItemView, on: bool)
    requires
        unique_paths(checked),
        forall|j: int| 0 <= j < checked.len() ==> (#[trigger] checked[j]).path.len() > 0,
        item.path.len() > 0,
    ensures
        (index_of_path(checked_after_set(checked, item, on), item.path) >= 0) == on,
        unique_paths(checked_after_set(checked, item, on)),
        forall|j: int| 0 <= j < checked_after_set(checked, item, on).len()
            ==> (#[trigger] checked_after_set(checked, item, on)[j]).path.len() > 0,
{
    let i = index_of_path(checked, item.path);
    lemma_index_of_path(checked, item.path);
    let r = checked_after_set(checked, item, on);
    lemma_index_of_path(r, item.path);
    if on {
        if i < 0 {
            assert(r == checked.push(item));
            assert(r[r.len() - 1] == item);
            assert forall|a: int, b: int| 0 <= a < b < r.len() implies (#[trigger] r[a]).path != (#[trigger] r[b]).path by {
                if b == r.len() - 1 {
                    assert(r[a] == checked[a]);
                } else {
                    assert(r[a] == checked[a] && r[b] == checked[b]);
                }
            }
        } else {
            assert(r == checked.update(i, item));
            assert(r[i] == item);
            assert forall|a: int, b: int| 0 <= a < b < r.len() implies (#[trigger] r[a]).path != (#[trigger] r[b]).path by {
                assert(checked[a].path != checked[b].path);
            }
        }
    } else {
        if i >= 0 {
            assert(r == checked.remove(i));
            assert forall|j: int| 0 <= j < r.len() implies (#[trigger] r[j]).path != item.path by {
                if j < i {
                    assert(r[j] == checked[j]);
                    assert(checked[j].path != checked[i].path);
                } else {
                    assert(r[j] == checked[j + 1]);
                    assert(checked[i].path != checked[j + 1].path);
                }
            }
            assert forall|a: int, b: int| 0 <= a < b < r.len() implies (#[trigger] r[a]).path != (#[trigger] r[b]).path by {
                let a2 = if a < i { a } else { a + 1 };
                let b2 = if b < i { b } else { b + 1 };
                assert(r[a] == checked[a2] && r[b] == checked[b2]);
            }
            assert forall|j: int| 0 <= j < r.len() implies (#[trigger] r[j]).path.len() > 0 by {
                if j < i {
                    assert(r[j] == checked[j]);
                } else {
                    assert(r[j] == checked[j + 1]);
                }
            }
        }
    }
}

/// Once an entry is forgotten it is neither viewed, selected, checked, on
/// the clipboard nor expanded, and the explorer's invariant still holds.
pub proof fn law_forget_removes_everywhere(v: ExplorerView, p: Seq<char>)
    requires
        explorer_wf(v),
    ensures
        forget_view(v, p).viewed != Some(p),
        !(forget_view(v, p).selected matches Some(s) && s.path == p),
        index_of_path(forget_view(v, p).checked, p) < 0,
        forget_view(v, p).clipboard matches Some(c) ==> forall|j: int| 0 <= j < c.items.len() ==> (#[trigger] c.items[j]).path != p,
        p.len() > 0 ==> !forget_view(v, p).expanded.contains(p),
        explorer_wf(forget_view(v, p)),
{
    let f = forget_view(v, p);
    lemma_items_without_drops(v.checked, p);
    lemma_index_of_path(f.checked, p);
    if let Some(c) = v.clipboard {
        lemma_clip_items_without_drops(c.items, p);
    }
    if p.len() > 0 {
        lemma_seq_without_tree_drops(v.expanded, p);
        lemma_seq_without_tree_keeps_distinct(v.expanded, p);
    }
}

proof fn lemma_seq_without_tree_keeps_distinct(s: Seq<Seq<char>>, p: Seq<char>)
    ensures
        forall|j: int| 0 <= j < seq_without_tree(s, p).len() ==> s.contains(#[trigger] seq_without_tree(s, p)[j]),
        no_repeats(s) ==> no_repeats(seq_without_tree(s, p)),
    decreases s.len(),
{
    if s.len() > 0 {
        let rest = s.drop_last();
        lemma_seq_without_tree_keeps_distinct(rest, p);
        let w = seq_without_tree(rest, p);
        assert forall|j: int| 0 <= j < w.len() implies s.contains(#[trigger] w[j]) by {
            let k = choose|k: int| 0 <= k < rest.len() && rest[k] == w[j];
            assert(s[k] == w[j]);
        }
        if no_repeats(s) {
            assert(no_repeats(rest)) by {
                assert forall|a: int, b: int| 0 <= a < b < rest.len() implies #[trigger] rest[a] != #[trigger] rest[b] by {
                    assert(rest[a] == s[a] && rest[b] == s[b]);
                }
            }
        }
        if s.last() != p && !starts_with(s.last(), p + seq!['/']) {
            let r = w.push(s.last());
            assert(s[s.len() - 1] == s.last());
            assert forall|j: int| 0 <= j < r.len() implies s.contains(#[trigger] r[j]) by {
                if j < w.len() {
                    assert(r[j] == w[j]);
                }
            }
            if no_repeats(s) {
                assert forall|a: int, b: int| 0 <= a < b < r.len() implies #[trigger] r[a] != #[trigger] r[b] by {
                    if b == r.len() - 1 {
                        assert(r[a] == w[a]);
                        let k = choose|k: int| 0 <= k < rest.len() && rest[k] == w[a];
                        assert(s[k] == rest[k]);
                    } else {
                        assert(r[a] == w[a] && r[b] == w[b]);
                    }
                }
            }
        }
    }
}

/// Toggling a directory flips whether it is expanded and keeps each
/// directory listed once; toggling a collapsed directory twice restores the
/// list exactly.
pub proof fn law_toggle_expanded(expanded: Seq<Seq<char>>, p: Seq<char>)
    requires
        no_repeats(expanded),
    ensures
        !seq_without(expanded, p).contains(p),
        expanded.push(p).contains(p),
        no_repeats(seq_without(expanded, p)),
        !expanded.contains(p) ==> no_repeats(expanded.push(p)),
        !expanded.contains(p) ==> seq_without(expanded.push(p), p) == expanded,
{
    lemma_seq_without_drops(expanded, p);
    assert(expanded.push(p)[expanded.len() as int] == p);
    if !expanded.contains(p) {
        let e2 = expanded.push(p);
        assert forall|a: int, b: int| 0 <= a < b < e2.len() implies #[trigger] e2[a] != #[trigger] e2[b] by {
            if b == e2.len() - 1 {
                assert(e2[a] == expanded[a]);
            } else {
                assert(e2[a] == expanded[a] && e2[b] == expanded[b]);
            }
        }
        assert(e2.drop_last() =~= expanded);
        lemma_seq_without_absent(expanded, p);
    }
}

proof fn lemma_seq_without_absent(s: Seq<Seq<char>>, x: Seq<char>)
    requires
        !s.contains(x),
    ensures
        seq_without(s, x) == s,
    decreases s.len(),
{
    if s.len() > 0 {
        let rest = s.drop_last();
        assert(!rest.contains(x)) by {
            if rest.contains(x) {
                let k = choose|k: int| 0 <= k < rest.len() && rest[k] == x;
                assert(s[k] == x);
            }
        }
        lemma_seq_without_absent(rest, x);
        assert(s[s.len() - 1] == s.last());
        assert(rest.push(s.last()) =~= s);
    }
}

/// Merged tag lists hold each tag once, ignoring case, and every tag that
/// went in is still represented (by its first spelling).
pub proof fn law_dedup_tags(t: Seq<Seq<char>>)
    ensures
        forall|a: int, b: int| 0 <= a < b < dedup_tags(t).len()
            ==> lowercase(#[trigger] dedup_tags(t)[a]) != lowercase(#[trigger] dedup_tags(t)[b]),
        forall|i: int| 0 <= i < t.len() ==> exists|k: int| 0 <= k < dedup_tags(t).len()
            && lowercase(#[trigger] dedup_tags(t)[k]) == lowercase(#[trigger] t[i]),
        forall|k: int| 0 <= k < dedup_tags(t).len() ==> t.contains(#[trigger] dedup_tags(t)[k]),
    decreases t.len(),
{
    if t.len() > 0 {
        let rest = t.drop_last();
        law_dedup_tags(rest);
        let d = dedup_tags(rest);
        assert forall|k: int| 0 <= k < d.len() implies t.contains(#[trigger] d[k]) by {
            let j = choose|j: int| 0 <= j < rest.len() && rest[j] == d[k];
            assert(t[j] == d[k]);
        }
        if exists|i: int| 0 <= i < t.len() - 1 && lowercase(#[trigger] t[i]) == lowercase(t.last()) {
            let i0 = choose|i: int| 0 <= i < t.len() - 1 && lowercase(#[trigger] t[i]) == lowercase(t.last());
            assert forall|i: int| 0 <= i < t.len() implies exists|k: int| 0 <= k < d.len()
                && lowercase(#[trigger] d[k]) == lowercase(#[trigger] t[i]) by {
                if i < t.len() - 1 {
                    assert(rest[i] == t[i]);
                } else {
                    assert(rest[i0] == t[i0]);
                }
            }
        } else {
            let r = d.push(t.last());
            assert(r[d.len() as int] == t.last());
            assert forall|k: int| 0 <= k < r.len() implies t.contains(#[trigger] r[k]) by {
                if k < d.len() {
                    assert(r[k] == d[k]);
                } else {
                    assert(t[t.len() - 1] == t.last());
                }
            }
            assert forall|a: int, b: int| 0 <= a < b < r.len()
                implies lowercase(#[trigger] r[a]) != lowercase(#[trigger] r[b]) by {
                assert(r[a] == d[a]);
                if b == r.len() - 1 {
                    let j = choose|j: int| 0 <= j < rest.len() && rest[j] == d[a];
                    assert(t[j] == rest[j]);
                    if lowercase(t[j]) == lowercase(t.last()) {
                        assert(0 <= j < t.len() - 1 && lowercase(t[j]) == lowercase(t.last()));
                    }
                } else {
                    assert(r[b] == d[b]);
                }
            }
            assert forall|i: int| 0 <= i < t.len() implies exists|k: int| 0 <= k < r.len()
                && lowercase(#[trigger] r[k]) == lowercase(#[trigger] t[i]) by {
                if i < t.len() - 1 {
                    assert(rest[i] == t[i]);
                    let k = choose|k: int| 0 <= k < d.len() && lowercase(#[trigger] d[k]) == lowercase(rest[i]);
                    assert(r[k] == d[k]);
                } else {
                    assert(lowercase(r[d.len() as int]) == lowercase(t[i]));
                }
            }
        }
    }
}

/// Every thumbnail lies on exactly one filmstrip page: the page of its
/// index divided by the page size is shown as asked, and its range holds
/// the thumbnail.
pub proof fn law_filmstrip_pages_cover(n: nat, i: nat)
    requires
        i < n,
    ensures
        shown_page(n, i / (FILMSTRIP_PAGE as nat)) == i / (FILMSTRIP_PAGE as nat),
        (i / (FILMSTRIP_PAGE as nat)) * FILMSTRIP_PAGE <= i,
        i < (i / (FILMSTRIP_PAGE as nat)) * FILMSTRIP_PAGE + FILMSTRIP_PAGE,
        forall|p: nat| #![trigger p * FILMSTRIP_PAGE] p * FILMSTRIP_PAGE <= i < p * FILMSTRIP_PAGE + FILMSTRIP_PAGE
            ==> p == i / (FILMSTRIP_PAGE as nat),
{
    let q = i / 100;
    assert(pages_for(n) == (n + 99) / 100);
    assert(q <= (n + 99) / 100 - 1) by (nonlinear_arith)
        requires
            i < n,
            q == i / 100,
    ;
    assert(q * 100 <= i < q * 100 + 100) by (nonlinear_arith)
        requires
            q == i / 100,
    ;
    assert forall|p: nat| #![trigger p * FILMSTRIP_PAGE] p * FILMSTRIP_PAGE <= i < p * FILMSTRIP_PAGE + FILMSTRIP_PAGE
        implies p == q by {
        assert(p == q) by (nonlinear_arith)
            requires
                p * 100 <= i < p * 100 + 100,
                q * 100 <= i < q * 100 + 100,
        ;
    }
}

/// A batch works on each non-empty checked path exactly once: no path
/// twice, no empty path, and every non-empty path given.
pub proof fn law_batch_paths_once(paths: Seq<Seq<char>>)
    ensures
        no_repeats(unique_nonempty(paths)),
        forall|k: int| 0 <= k < unique_nonempty(paths).len() ==> (#[trigger] unique_nonempty(paths)[k]).len() > 0,
        forall|p: Seq<char>| #[trigger] unique_nonempty(paths).contains(p) <==> (paths.contains(p) && p.len() > 0),
    decreases paths.len(),
{
    if paths.len() > 0 {
        let rest = paths.drop_last();
        law_batch_paths_once(rest);
        let u = unique_nonempty(rest);
        let x = paths.last();
        assert(paths[paths.len() - 1] == x);
        assert forall|p: Seq<char>| #[trigger] unique_nonempty(paths).contains(p) <==> (paths.contains(p) && p.len() > 0) by {
            if paths.contains(p) && p.len() > 0 {
                let k = choose|k: int| 0 <= k < paths.len() && paths[k] == p;
                if k < paths.len() - 1 {
                    assert(rest[k] == p);
                    assert(u.contains(p));
                    let m = choose|m: int| 0 <= m < u.len() && u[m] == p;
                    if !(x.len() == 0 || u.contains(x)) {
                        assert(u.push(x)[m] == p);
                    }
                } else if !(x.len() == 0 || u.contains(x)) {
                    assert(u.push(x)[u.len() as int] == p);
                }
            }
            if unique_nonempty(paths).contains(p) {
                let m = choose|m: int| 0 <= m < unique_nonempty(paths).len() && unique_nonempty(paths)[m] == p;
                if m < u.len() {
                    if !(x.len() == 0 || u.contains(x)) {
                        assert(u.push(x)[m] == u[m]);
                    }
                    assert(u.contains(p));
                    let k = choose|k: int| 0 <= k < rest.len() && rest[k] == p;
                    assert(paths[k] == p);
                } else {
                    assert(u.push(x)[m] == x);
                }
            }
        }
        if !(x.len() == 0 || u.contains(x)) {
            let r = u.push(x);
            assert forall|a: int, b: int| 0 <= a < b < r.len() implies #[trigger] r[a] != #[trigger] r[b] by {
                if b == r.len() - 1 {
                    assert(r[a] == u[a]);
                    assert(u.contains(u[a]));
                } else {
                    assert(r[a] == u[a] && r[b] == u[b]);
                }
            }
            assert forall|k: int| 0 <= k < r.len() implies (#[trigger] r[k]).len() > 0 by {
                if k < u.len() {
                    assert(r[k] == u[k]);
                }
            }
        }
    }
}

proof fn lemma_rows_without(rows: Seq<(Seq<char>, i64, Seq<char>)>, p: Seq<char>)
    ensures
        forall|k: int| 0 <= k < rows_without(rows, p).len() ==> (#[trigger] rows_without(rows, p)[k]).0 != p,
        forall|k: int| 0 <= k < rows_without(rows, p).len() ==> rows.contains(#[trigger] rows_without(rows, p)[k]),
        (forall|a: int, b: int| 0 <= a < b < rows.len() ==> (#[trigger] rows[a]).0 != (#[trigger] rows[b]).0) ==>
            forall|a: int, b: int| 0 <= a < b < rows_without(rows, p).len()
                ==> (#[trigger] rows_without(rows, p)[a]).0 != (#[trigger] rows_without(rows, p)[b]).0,
    decreases rows.len(),
{
    if rows.len() > 0 {
        let rest = rows.drop_last();
        lemma_rows_without(rest, p);
        let w = rows_without(rest, p);
        assert forall|k: int| 0 <= k < w.len() implies rows.contains(#[trigger] w[k]) by {
            let j = choose|j: int| 0 <= j < rest.len() && rest[j] == w[k];
            assert(rows[j] == w[k]);
        }
        if forall|a: int, b: int| 0 <= a < b < rows.len() ==> (#[trigger] rows[a]).0 != (#[trigger] rows[b]).0 {
            assert forall|a: int, b: int| 0 <= a < b < rest.len() implies (#[trigger] rest[a]).0 != (#[trigger] rest[b]).0 by {
                assert(rest[a] == rows[a] && rest[b] == rows[b]);
            }
        }
        if rows.last().0 != p {
            let r = w.push(rows.last());
            assert(rows[rows.len() - 1] == rows.last());
            assert forall|k: int| 0 <= k < r.len() implies (#[trigger] r[k]).0 != p && rows.contains(r[k]) by {
                if k < w.len() {
                    assert(r[k] == w[k]);
                }
            }
            if forall|a: int, b: int| 0 <= a < b < rows.len() ==> (#[trigger] rows[a]).0 != (#[trigger] rows[b]).0 {
                assert forall|a: int, b: int| 0 <= a < b < r.len() implies (#[trigger] r[a]).0 != (#[trigger] r[b]).0 by {
                    if b == r.len() - 1 {
                        assert(r[a] == w[a]);
                        let j = choose|j: int| 0 <= j < rest.len() && rest[j] == w[a];
                        assert(rows[j] == w[a]);
                    } else {
                        assert(r[a] == w[a] && r[b] == w[b]);
                    }
                }
            }
        }
    }
}

/// The index holds at most one row per image: recording an image replaces
/// its earlier row, and the new row is the last.
pub proof fn law_index_one_row_per_image(rows: Seq<(Seq<char>, i64, Seq<char>)>, row: (Seq<char>, i64, Seq<char>))
    requires
        forall|a: int, b: int| 0 <= a < b < rows.len() ==> (#[trigger] rows[a]).0 != (#[trigger] rows[b]).0,
    ensures
        ({
            let r = rows_without(rows, row.0).push(row);
            &&& forall|a: int, b: int| 0 <= a < b < r.len() ==> (#[trigger] r[a]).0 != (#[trigger] r[b]).0
            &&& r.last() == row
        }),
{
    lemma_rows_without(rows, row.0);
    let w = rows_without(rows, row.0);
    let r = w.push(row);
    assert forall|a: int, b: int| 0 <= a < b < r.len() implies (#[trigger] r[a]).0 != (#[trigger] r[b]).0 by {
        if b == r.len() - 1 {
            assert(r[a] == w[a]);
        } else {
            assert(r[a] == w[a] && r[b] == w[b]);
        }
    }
}

proof fn lemma_listing_items_nonempty(entries: Seq<crate::structure::FsEntry>)
    ensures
        forall|j: int| 0 <= j < listing_items(entries).len() ==> (#[trigger] listing_items(entries)[j]).path.len() > 0,
    decreases entries.len(),
{
    if entries.len() > 0 {
        lemma_listing_items_nonempty(entries.drop_last());
        let w = listing_items(entries.drop_last());
        if entries.last().path@.len() > 0 {
            let x = listing_items(entries)[w.len() as int];
            assert forall|j: int| 0 <= j < w.len() + 1 implies (#[trigger] listing_items(entries)[j]).path.len() > 0 by {
                if j < w.len() {
                    assert(listing_items(entries)[j] == w[j]);
                }
            }
        }
    }
}

proof fn lemma_add_missing(c: Seq<ItemView>, items: Seq<ItemView>)
    requires
        unique_paths(c),
        forall|j: int| 0 <= j < c.len() ==> (#[trigger] c[j]).path.len() > 0,
        forall|j: int| 0 <= j < items.len() ==> (#[trigger] items[j]).path.len() > 0,
    ensures
        unique_paths(add_missing(c, items)),
        forall|j: int| 0 <= j < add_missing(c, items).len() ==> (#[trigger] add_missing(c, items)[j]).path.len() > 0,
        forall|j: int| 0 <= j < items.len() ==> index_of_path(add_missing(c, items), (#[trigger] items[j]).path) >= 0,
        forall|p: Seq<char>| index_of_path(c, p) >= 0 ==> #[trigger] index_of_path(add_missing(c, items), p) >= 0,
    decreases items.len(),
{
    if items.len() > 0 {
        let rest = items.drop_last();
        assert forall|j: int| 0 <= j < rest.len() implies (#[trigger] rest[j]).path.len() > 0 by {
            assert(rest[j] == items[j]);
        }
        lemma_add_missing(c, rest);
        let b = add_missing(c, rest);
        let x = items.last();
        assert(items[items.len() - 1] == x);
        lemma_index_of_path(b, x.path);
        if index_of_path(b, x.path) < 0 {
            let r = b.push(x);
            assert(r.drop_last() =~= b);
            assert forall|a: int, k: int| 0 <= a < k < r.len() implies (#[trigger] r[a]).path != (#[trigger] r[k]).path by {
                if k == r.len() - 1 {
                    assert(r[a] == b[a]);
                } else {
                    assert(r[a] == b[a] && r[k] == b[k]);
                }
            }
            assert forall|j: int| 0 <= j < r.len() implies (#[trigger] r[j]).path.len() > 0 by {
                if j < b.len() {
                    assert(r[j] == b[j]);
                }
            }
            assert forall|p: Seq<char>| index_of_path(b, p) >= 0 implies #[trigger] index_of_path(r, p) >= 0 by {
            }
            assert forall|j: int| 0 <= j < items.len() implies index_of_path(r, (#[trigger] items[j]).path) >= 0 by {
                if j < items.len() - 1 {
                    assert(items[j] == rest[j]);
                    assert(index_of_path(b, rest[j].path) >= 0);
                }
            }
        } else {
            assert forall|j: int| 0 <= j < items.len() implies index_of_path(b, (#[trigger] items[j]).path) >= 0 by {
                if j < items.len() - 1 {
                    assert(items[j] == rest[j]);
                }
            }
        }
    }
}

/// Checking all entries of a folder checks every listed entry (the root
/// never), keeps what was checked, and keeps the explorer's invariant.
pub proof fn law_check_all(v: ExplorerView, listing: Result<Seq<crate::structure::FsEntry>, Seq<char>>)
    requires
        explorer_wf(v),
    ensures
        explorer_wf(after_check_all(v, listing)),
        forall|p: Seq<char>| index_of_path(v.checked, p) >= 0 ==> #[trigger] index_of_path(after_check_all(v, listing).checked, p) >= 0,
        listing matches Ok(entries) ==> forall|j: int| 0 <= j < listing_items(entries).len()
            ==> index_of_path(after_check_all(v, listing).checked, (#[trigger] listing_items(entries)[j]).path) >= 0,
{
    if let Ok(entries) = listing {
        lemma_listing_items_nonempty(entries);
        lemma_add_missing(v.checked, listing_items(entries));
    }
}

proof fn lemma_unchecked_stays(c: Seq<ItemView>, p: Seq<char>, q: Seq<char>)
    requires
        index_of_path(c, p) < 0,
    ensures
        index_of_path(items_without(c, q), p) < 0,
{
    lemma_index_of_path(c, p);
    lemma_items_without_drops(c, q);
    let w = items_without(c, q);
    lemma_index_of_path(w, p);
    if index_of_path(w, p) >= 0 {
        let i = index_of_path(w, p);
        assert(c.contains(w[i]));
        let j = choose|j: int| 0 <= j < c.len() && c[j] == w[i];
        assert(c[j].path == p);
    }
}

proof fn lemma_delete_forgets(v: ExplorerView, items: Seq<ItemView>, k: nat)
    requires
        explorer_wf(v),
        k <= items.len(),
    ensures
        explorer_wf(delete_forgets(v, items, k)),
        forall|j: int| 0 <= j < k ==> index_of_path(delete_forgets(v, items, k).checked, (#[trigger] items[j]).path) < 0,
    decreases k,
{
    if k > 0 {
        lemma_delete_forgets(v, items, (k - 1) as nat);
        let w = delete_forgets(v, items, (k - 1) as nat);
        let q = items[k - 1].path;
        law_forget_removes_everywhere(w, q);
        assert forall|j: int| 0 <= j < k implies index_of_path(delete_forgets(v, items, k).checked, (#[trigger] items[j]).path) < 0 by {
            if j < k - 1 {
                lemma_unchecked_stays(w.checked, items[j].path, q);
            }
        }
    }
}

/// Deleting entries forgets each entry that was deleted (until the first
/// failure): none of them stays checked, and the explorer's invariant holds.
pub proof fn law_delete_forgets_deleted(v: ExplorerView, items: Seq<ItemView>, outcomes: Seq<Result<(), Seq<char>>>)
    requires
        explorer_wf(v),
    ensures
        explorer_wf(after_delete(v, items, outcomes)),
        forall|j: int| 0 <= j < leading_ok(outcomes, items.len())
            ==> index_of_path(after_delete(v, items, outcomes).checked, (#[trigger] items[j]).path) < 0,
{
    lemma_leading_ok_bound(outcomes, items.len());
    lemma_delete_forgets(v, items, leading_ok(outcomes, items.len()));
}

proof fn lemma_leading_ok_bound<T>(outs: Seq<Result<T, Seq<char>>>, n: nat)
    ensures
        leading_ok(outs, n) <= n,
    decreases n,
{
    if n > 0 {
        lemma_leading_ok_bound(outs, (n - 1) as nat);
    }
}

proof fn lemma_paste_forgets(
    v: ExplorerView,
    items: Seq<ClipItemView>,
    outcomes: Seq<Result<Seq<char>, Seq<char>>>,
    cut: bool,
    k: nat,
)
    requires
        explorer_wf(v),
    ensures
        explorer_wf(paste_forgets(v, items, outcomes, cut, k)),
    decreases k,
{
    if k > 0 {
        lemma_paste_forgets(v, items, outcomes, cut, (k - 1) as nat);
        let w = paste_forgets(v, items, outcomes, cut, (k - 1) as nat);
        law_forget_removes_everywhere(w, items[k - 1].path);
    }
}

/// Pasting (copying or moving) keeps the explorer's invariant: moved
/// entries are forgotten at their old place.
pub proof fn law_paste_keeps_invariant(
    v: ExplorerView,
    items: Seq<ClipItemView>,
    cut: bool,
    outcomes: Seq<Result<Seq<char>, Seq<char>>>,
)
    requires
        explorer_wf(v),
    ensures
        explorer_wf(after_paste(v, items, cut, outcomes)),
{
    lemma_paste_forgets(v, items, outcomes, cut, leading_ok(outcomes, items.len()));
}

/// Creating a folder or a file keeps the explorer's invariant; a new file's
/// folder is expanded (once).
pub proof fn law_create_keeps_invariant(v: ExplorerView, parent: Seq<char>, result: Result<Seq<char>, Seq<char>>)
    requires
        explorer_wf(v),
    ensures
        explorer_wf(after_mkdir(v, result)),
        explorer_wf(after_mkfile(v, parent, result)),
        result is Ok ==> after_mkfile(v, parent, result).expanded.contains(parent),
{
    if !v.expanded.contains(parent) {
        let e = v.expanded;
        let e2 = e.push(parent);
        assert(e2[e.len() as int] == parent);
        assert forall|a: int, b: int| 0 <= a < b < e2.len() implies #[trigger] e2[a] != #[trigger] e2[b] by {
            if b == e2.len() - 1 {
                assert(e2[a] == e[a]);
            } else {
                assert(e2[a] == e[a] && e2[b] == e[b]);
            }
        }
    }
}

/// `x` is `p` or lies below it.
pub open spec fn at_or_below(x: Seq<char>, p: Seq<char>) -> bool {
    x == p || starts_with(x, p + seq!['/'])
}

proof fn lemma_rewritten_below(x: Seq<char>, old: Seq<char>, new: Seq<char>)
    requires
        rewritten(x, old, new) != x,
        x != old,
    ensures
        starts_with(rewritten(x, old, new), new + seq!['/']),
        rewritten(x, old, new).len() > new.len(),
{
    let r = rewritten(x, old, new);
    let tail = x.subrange(old.len() as int, x.len() as int);
    assert(r == new + tail);
    assert(tail[0] == '/');
    assert(r.subrange(0, new.len() as int + 1) =~= new + seq!['/']);
}

proof fn lemma_rewritten_distinct(p: Seq<char>, q: Seq<char>, old: Seq<char>, new: Seq<char>)
    requires
        p != q,
        !at_or_below(p, new),
        !at_or_below(q, new),
    ensures
        rewritten(p, old, new) != rewritten(q, old, new),
{
    let rp = rewritten(p, old, new);
    let rq = rewritten(q, old, new);
    if rp == rq {
        if p == old {
            if q != rq {
                lemma_rewritten_below(q, old, new);
            }
        } else if q == old {
            if p != rp {
                lemma_rewritten_below(p, old, new);
            }
        } else if rp != p && rq != q {
            let tp = p.subrange(old.len() as int, p.len() as int);
            let tq = q.subrange(old.len() as int, q.len() as int);
            assert(new + tp == new + tq);
            assert(tp =~= (new + tp).subrange(new.len() as int, (new + tp).len() as int));
            assert(tq =~= (new + tq).subrange(new.len() as int, (new + tq).len() as int));
            assert(p =~= p.subrange(0, old.len() as int) + tp);
            assert(q =~= q.subrange(0, old.len() as int) + tq);
            assert(p.subrange(0, old.len() as int) =~= old);
            assert(q.subrange(0, old.len() as int) =~= old);
        } else if rp != p {
            lemma_rewritten_below(p, old, new);
        } else if rq != q {
            lemma_rewritten_below(q, old, new);
        }
    }
}

proof fn lemma_first_occurrences(s: Seq<Seq<char>>)
    ensures
        no_repeats(first_occurrences(s)),
        forall|k: int| 0 <= k < first_occurrences(s).len() ==> s.contains(#[trigger] first_occurrences(s)[k]),
    decreases s.len(),
{
    if s.len() > 0 {
        let rest = s.drop_last();
        lemma_first_occurrences(rest);
        let f = first_occurrences(rest);
        assert forall|k: int| 0 <= k < f.len() implies s.contains(#[trigger] f[k]) by {
            let j = choose|j: int| 0 <= j < rest.len() && rest[j] == f[k];
            assert(s[j] == f[k]);
        }
        if !rest.contains(s.last()) {
            let r = f.push(s.last());
            assert(s[s.len() - 1] == s.last());
            assert forall|k: int| 0 <= k < r.len() implies s.contains(#[trigger] r[k]) by {
                if k < f.len() {
                    assert(r[k] == f[k]);
                }
            }
            assert forall|a: int, b: int| 0 <= a < b < r.len() implies #[trigger] r[a] != #[trigger] r[b] by {
                if b == r.len() - 1 {
                    assert(r[a] == f[a]);
                    let j = choose|j: int| 0 <= j < rest.len() && rest[j] == f[a];
                    assert(rest.contains(rest[j]));
                } else {
                    assert(r[a] == f[a] && r[b] == f[b]);
                }
            }
        }
    }
}

/// Renaming keeps the explorer's invariant when nothing checked already
/// lies at or below the new path (the new name was free) and that path is
/// not empty: checked entries follow the rename without colliding, and each
/// expanded folder is listed once.
pub proof fn law_rename_keeps_invariant(v: ExplorerView, from: Seq<char>, result: Result<Seq<char>, Seq<char>>)
    requires
        explorer_wf(v),
        result matches Ok(np) ==> np.len() > 0
            && forall|j: int| 0 <= j < v.checked.len() ==> !at_or_below((#[trigger] v.checked[j]).path, np),
    ensures
        explorer_wf(after_rename(v, from, result)),
{
    if let Ok(np) = result {
        let c = v.checked.map_values(|i: ItemView| retarget_item(i, from, np));
        assert(c == retarget_view(v, from, np).checked);
        assert forall|a: int, b: int| 0 <= a < b < c.len() implies (#[trigger] c[a]).path != (#[trigger] c[b]).path by {
            assert(c[a] == retarget_item(v.checked[a], from, np));
            assert(c[b] == retarget_item(v.checked[b], from, np));
            lemma_rewritten_distinct(v.checked[a].path, v.checked[b].path, from, np);
        }
        assert forall|j: int| 0 <= j < c.len() implies (#[trigger] c[j]).path.len() > 0 by {
            assert(c[j] == retarget_item(v.checked[j], from, np));
            let x = v.checked[j].path;
            if rewritten(x, from, np) != x && x != from {
                lemma_rewritten_below(x, from, np);
            }
        }
        lemma_first_occurrences(v.expanded.map_values(|k: Seq<char>| rewritten(k, from, np)));
    }
}


/// Against a lower-case text, comparing ignoring ASCII case is comparing
/// the ASCII lower-case form.
proof fn lemma_ignore_case_lower(e: Seq<char>, x: Seq<char>)
    requires
        forall|j: int| 0 <= j < x.len() ==> ascii_lower(#[trigger] x[j]) == x[j],
    ensures
        eq_ignore_ascii_case(e, x) <==> e.map_values(|c: char| ascii_lower(c)) == x,
{
    let l = e.map_values(|c: char| ascii_lower(c));
    if eq_ignore_ascii_case(e, x) {
        assert(l =~= x);
    }
    if l == x {
        assert forall|i: int| 0 <= i < e.len() implies ascii_lower(#[trigger] e[i]) == ascii_lower(x[i]) by {
            assert(l[i] == ascii_lower(e[i]));
        }
    }
}

/// A text of lower-case ASCII letters is its own ASCII lower-case form.
proof fn lemma_lower_word(x: Seq<char>)
    requires
        forall|j: int| 0 <= j < x.len() ==> 'a' <= #[trigger] x[j] <= 'z',
    ensures
        forall|j: int| 0 <= j < x.len() ==> ascii_lower(#[trigger] x[j]) == x[j],
{
}

/// An extension is an image extension exactly when its ASCII lower-case
/// form is one of the listed ones.
proof fn lemma_image_ext_lower(e: Seq<char>)
    ensures
        is_image_ext(e) <==> image_exts().contains(e.map_values(|c: char| ascii_lower(c))),
{
    reveal_strlit("jpg");
    reveal_strlit("jpeg");
    reveal_strlit("png");
    reveal_strlit("gif");
    reveal_strlit("webp");
    reveal_strlit("bmp");
    reveal_strlit("svg");
    reveal_strlit("avif");
    reveal_strlit("ico");
    reveal_strlit("tif");
    reveal_strlit("tiff");
    let l = e.map_values(|c: char| ascii_lower(c));
    let x = image_exts();
    assert forall|i: int| 0 <= i < x.len() implies
        (eq_ignore_ascii_case(e, #[trigger] x[i]) <==> l == x[i]) by {
        assert(forall|j: int| 0 <= j < x[i].len() ==> 'a' <= #[trigger] x[i][j] <= 'z');
        lemma_lower_word(x[i]);
        lemma_ignore_case_lower(e, x[i]);
    }
    if is_image_ext(e) {
        let i = choose|i: int| 0 <= i < x.len() && eq_ignore_ascii_case(e, #[trigger] x[i]);
        assert(x[i] == l);
    }
    if x.contains(l) {
        let i = choose|i: int| 0 <= i < x.len() && x[i] == l;
        assert(eq_ignore_ascii_case(e, x[i]));
    }
}

/// The media type of a lower-case extension is an `image/` type exactly
/// for the listed image extensions, else the generic binary type.
proof fn lemma_mime_of_ext(l: Seq<char>)
    ensures
        (mime_of_ext(l) != "application/octet-stream"@) <==> image_exts().contains(l),
        image_exts().contains(l) ==> starts_with(mime_of_ext(l), "image/"@),
{
    reveal_strlit("jpg");
    reveal_strlit("jpeg");
    reveal_strlit("png");
    reveal_strlit("gif");
    reveal_strlit("webp");
    reveal_strlit("bmp");
    reveal_strlit("svg");
    reveal_strlit("avif");
    reveal_strlit("ico");
    reveal_strlit("tif");
    reveal_strlit("tiff");
    reveal_strlit("image/jpeg");
    reveal_strlit("image/png");
    reveal_strlit("image/gif");
    reveal_strlit("image/webp");
    reveal_strlit("image/bmp");
    reveal_strlit("image/svg+xml");
    reveal_strlit("image/avif");
    reveal_strlit("image/x-icon");
    reveal_strlit("image/tiff");
    reveal_strlit("image/");
    reveal_strlit("application/octet-stream");
    let x = image_exts();
    if x.contains(l) {
        let i = choose|i: int| 0 <= i < x.len() && x[i] == l;
        assert(0 <= i < 11);
        let m = mime_of_ext(l);
        assert(m[0] == 'i');
        assert(m.subrange(0, 6) =~= "image/"@);
    } else {
        assert(x[0] == "jpg"@ && x[1] == "jpeg"@ && x[2] == "png"@ && x[3] == "gif"@ && x[4] == "webp"@);
        assert(x[5] == "bmp"@ && x[6] == "svg"@ && x[7] == "avif"@ && x[8] == "ico"@ && x[9] == "tif"@);
        assert(x[10] == "tiff"@);
    }
}

/// A file name (no `/`, not starting with `.`) is served with an image
/// media type exactly when it is an image name, and that type is an
/// `image/` one; any other name gets the generic binary type.
pub proof fn law_mime_matches_image_name(n: Seq<char>)
    requires
        n.len() > 0,
        !n.contains('/'),
        n[0] != '.',
    ensures
        (mime_of_path(n) != "application/octet-stream"@) <==> image_name(n),
        image_name(n) ==> starts_with(mime_of_path(n), "image/"@),
{
    assert(n[n.len() - 1] != '/');
    if n.len() >= 2 {
        assert(n[n.len() - 2] != '/');
    }
    assert(crate::sandbox::trim_path_tail(n) == n);
    lemma_rfind(n, '/');
    if rfind(n, '/') >= 0 {
        assert(n[rfind(n, '/')] == '/');
        assert(n.contains('/'));
    }
    assert(n.subrange(0, n.len() as int) =~= n);
    assert(n != seq!['.'] && n != seq!['.', '.']) by {
        if n == seq!['.'] || n == seq!['.', '.'] {
            assert(n[0] == '.');
        }
    }
    assert(parent_and_name(n) == Some((Seq::<char>::empty(), n)));
    lemma_rfind(n, '.');
    let k = rfind(n, '.');
    reveal_strlit("application/octet-stream");
    if k >= 0 {
        assert(k != 0);
        let e = n.subrange(k + 1, n.len() as int);
        lemma_image_ext_lower(e);
        lemma_mime_of_ext(e.map_values(|c: char| ascii_lower(c)));
    } else {
        reveal_strlit("image/");
        assert(!image_name(n));
    }
}

/// The star filter compares the rating with the chosen value: `lt` lets
/// through exactly the ratings below it, `le` those not above it, `ge` those
/// not below it, `gt` those above it, `eq` only the value itself, and `any`
/// (or no comparison) every rating.
pub proof fn law_star_filter_compares(rating: u8, val: u8)
    ensures
        star_match_spec(rating, "lt"@, val) <==> rating < val,
        star_match_spec(rating, "le"@, val) <==> rating <= val,
        star_match_spec(rating, "ge"@, val) <==> rating >= val,
        star_match_spec(rating, "gt"@, val) <==> rating > val,
        star_match_spec(rating, "eq"@, val) <==> rating == val,
        star_match_spec(rating, "any"@, val),
        star_match_spec(rating, Seq::empty(), val),
{
    reveal_strlit("any");
    reveal_strlit("lt");
    reveal_strlit("le");
    reveal_strlit("ge");
    reveal_strlit("gt");
    reveal_strlit("eq");
    assert("lt"@.len() == 2 && "le"@.len() == 2 && "ge"@.len() == 2 && "gt"@.len() == 2 && "any"@.len() == 3);
    assert("lt"@ != "any"@ && "le"@ != "any"@ && "ge"@ != "any"@ && "gt"@ != "any"@ && "eq"@ != "any"@);
    assert("le"@[1] != "lt"@[1] && "ge"@[0] != "lt"@[0] && "gt"@[0] != "lt"@[0] && "eq"@[0] != "lt"@[0]);
    assert("ge"@[0] != "le"@[0] && "gt"@[0] != "le"@[0] && "eq"@[0] != "le"@[0]);
    assert("gt"@[1] != "ge"@[1] && "eq"@[0] != "ge"@[0] && "eq"@[0] != "gt"@[0]);
}

/// The tag filter: an empty query (after normalizing) lets everything
/// through; otherwise `excludes` lets through exactly what `contains`
/// rejects, any mode other than `eq` and `excludes` behaves as `contains`,
/// and `eq` lets through tags whose whole text or one tag is the query.
pub proof fn law_tag_filter_modes(tags: Seq<char>, mode: Seq<char>, query: Seq<char>)
    ensures
        normalized(query).len() == 0 ==> tags_match_spec(tags, mode, query),
        normalized(query).len() > 0 ==> (tags_match_spec(tags, "excludes"@, query)
            <==> !tags_match_spec(tags, "contains"@, query)),
        normalized(query).len() > 0 && mode != "eq"@ && mode != "excludes"@ ==> (tags_match_spec(tags, mode, query)
            <==> tags_match_spec(tags, "contains"@, query)),
        normalized(query).len() > 0 ==> (tags_match_spec(tags, "eq"@, query)
            <==> (normalized(tags) == normalized(query) || crate::filter::tags_of(tags).contains(normalized(query)))),
{
    reveal_strlit("eq");
    reveal_strlit("excludes");
    reveal_strlit("contains");
    assert("contains"@.len() == 8 && "excludes"@.len() == 8 && "eq"@.len() == 2);
    assert("contains"@[0] != "excludes"@[0]);
}

/// An ISO media file (`ftyp` at bytes 4..8) whose brand is one of the
/// still-image brands `avif`, `avis`, `heic`, `heif`, `mif1` or `msf1` is an
/// image, whatever follows (unless it is a RIFF file).
pub proof fn law_iso_image_brands_are_images(buf: Seq<u8>)
    requires
        buf.len() >= 12,
        buf.subrange(4, 8) == seq![0x66u8, 0x74, 0x79, 0x70],
        buf.subrange(0, 4) != seq![0x52u8, 0x49, 0x46, 0x46],
        ({
            let b = buf.subrange(8, 12);
            ||| b == seq![0x61u8, 0x76, 0x69, 0x66]
            ||| b == seq![0x61u8, 0x76, 0x69, 0x73]
            ||| b == seq![0x68u8, 0x65, 0x69, 0x63]
            ||| b == seq![0x68u8, 0x65, 0x69, 0x66]
            ||| b == seq![0x6du8, 0x69, 0x66, 0x31]
            ||| b == seq![0x6du8, 0x73, 0x66, 0x31]
        }),
    ensures
        kind_of_header(buf) == FileKind::Image,
{
}

/// An ISO media file (`ftyp` at bytes 4..8, a box size below 2^24 that
/// is not an icon's signature) with any other brand is a video.
pub proof fn law_iso_other_brands_are_videos(buf: Seq<u8>)
    requires
        buf.len() >= 12,
        buf.subrange(4, 8) == seq![0x66u8, 0x74, 0x79, 0x70],
        buf[0] == 0,
        buf.subrange(0, 4) != seq![0x00u8, 0x00, 0x01, 0x00],
        ({
            let b = buf.subrange(8, 12);
            &&& b != seq![0x61u8, 0x76, 0x69, 0x66]
            &&& b != seq![0x61u8, 0x76, 0x69, 0x73]
            &&& b != seq![0x68u8, 0x65, 0x69, 0x63]
            &&& b != seq![0x68u8, 0x65, 0x69, 0x66]
            &&& b != seq![0x6du8, 0x69, 0x66, 0x31]
            &&& b != seq![0x6du8, 0x73, 0x66, 0x31]
        }),
    ensures
        kind_of_header(buf) == FileKind::Video,
{
    assert(buf.subrange(0, 4)[0] == 0);
    assert(buf.subrange(0, 3)[0] == 0);
    assert(buf.subrange(0, 2)[0] == 0);
    assert(buf.subrange(0, 6)[0] == 0);
    assert(buf.subrange(0, 8)[0] == 0);
}

/// Files that begin with the PNG, JPEG, GIF or BMP signature are images.
pub proof fn law_image_signatures(buf: Seq<u8>)
    ensures
        buf.len() >= 8 && buf.subrange(0, 8) == seq![0x89u8, 0x50, 0x4e, 0x47, 0x0d, 0x0a, 0x1a, 0x0a]
            ==> kind_of_header(buf) == FileKind::Image,
        buf.len() >= 3 && buf.subrange(0, 3) == seq![0xffu8, 0xd8, 0xff] ==> kind_of_header(buf) == FileKind::Image,
        buf.len() >= 6 && (buf.subrange(0, 6) == seq![0x47u8, 0x49, 0x46, 0x38, 0x37, 0x61]
            || buf.subrange(0, 6) == seq![0x47u8, 0x49, 0x46, 0x38, 0x39, 0x61])
            ==> kind_of_header(buf) == FileKind::Image,
        buf.len() >= 2 && buf.subrange(0, 2) == seq![0x42u8, 0x4d] ==> kind_of_header(buf) == FileKind::Image,
{
}

/// The name a format is known by: `jpeg` is `jpg` and `tif` is `tiff`.
pub open spec fn format_name(n: Seq<char>) -> Seq<char> {
    if n == "jpeg"@ {
        "jpg"@
    } else if n == "tif"@ {
        "tiff"@
    } else {
        n
    }
}

proof fn lemma_lower_ext(g: ImageFmt)
    ensures
        ascii_lowered(crate::text::trim(fmt_ext(g))) == fmt_ext(g),
{
    reveal_strlit("jpg");
    reveal_strlit("png");
    reveal_strlit("webp");
    reveal_strlit("gif");
    reveal_strlit("bmp");
    reveal_strlit("tiff");
    let e = fmt_ext(g);
    assert(forall|j: int| 0 <= j < e.len() ==> 'a' <= #[trigger] e[j] <= 'z');
    assert(!crate::text::is_white_space(e[0]));
    assert(!crate::text::is_white_space(e.last()));
    assert(crate::text::trim(e) == e);
    assert(ascii_lowered(e) =~= e);
}

/// Exporting to a format names it: a format name that asks for a
/// conversion asks for the format whose extension is that name (trimmed,
/// in lower case, `jpeg` read as `jpg` and `tif` as `tiff`), and each
/// format's extension asks for that format.
pub proof fn law_export_format_names(f: Seq<char>, g: ImageFmt)
    ensures
        kind_of_format(f) matches Some(ExportKind::Convert(h))
            ==> fmt_ext(h) == format_name(ascii_lowered(crate::text::trim(f))),
        kind_of_format(fmt_ext(g)) == Some(ExportKind::Convert(g)),
{
    reveal_strlit("original");
    reveal_strlit("orig");
    reveal_strlit("jpg");
    reveal_strlit("jpeg");
    reveal_strlit("png");
    reveal_strlit("webp");
    reveal_strlit("gif");
    reveal_strlit("bmp");
    reveal_strlit("tif");
    reveal_strlit("tiff");
    lemma_lower_ext(g);
    assert("jpg"@.len() == 3 && "png"@.len() == 3 && "gif"@.len() == 3 && "bmp"@.len() == 3 && "tif"@.len() == 3);
    assert("jpeg"@.len() == 4 && "webp"@.len() == 4 && "tiff"@.len() == 4 && "orig"@.len() == 4 && "original"@.len() == 8);
    assert("jpg"@[0] != "png"@[0] && "jpg"@[0] != "gif"@[0] && "jpg"@[0] != "bmp"@[0] && "jpg"@[0] != "tif"@[0]);
    assert("png"@[0] != "gif"@[0] && "png"@[0] != "bmp"@[0] && "png"@[0] != "tif"@[0]);
    assert("gif"@[0] != "bmp"@[0] && "gif"@[0] != "tif"@[0] && "bmp"@[0] != "tif"@[0]);
    assert("jpeg"@[0] != "webp"@[0] && "jpeg"@[0] != "tiff"@[0] && "jpeg"@[0] != "orig"@[0]);
    assert("webp"@[0] != "tiff"@[0] && "webp"@[0] != "orig"@[0] && "tiff"@[0] != "orig"@[0]);
}

/// A star and tag filter keeps exactly the gallery's paths that it lists,
/// in their order; without a filter every path is kept. In particular a
/// filter that lists nothing leaves an empty gallery.
pub proof fn law_path_filter_keeps_listed(paths: Seq<Seq<char>>, f: Seq<Seq<char>>)
    ensures
        filtered_paths(paths, None) == paths,
        forall|x: Seq<char>| #[trigger] filtered_paths(paths, Some(f)).contains(x) <==> (paths.contains(x) && f.contains(x)),
        filtered_paths(paths, Some(f)).len() <= paths.len(),
        f.len() == 0 ==> filtered_paths(paths, Some(f)).len() == 0,
    decreases paths.len(),
{
    if paths.len() > 0 {
        let p = paths.drop_last();
        law_path_filter_keeps_listed(p, f);
        let r = filtered_paths(p, Some(f));
        let x0 = paths.last();
        assert forall|x: Seq<char>| #[trigger] filtered_paths(paths, Some(f)).contains(x) <==> (paths.contains(x) && f.contains(x)) by {
            assert(paths == p.push(x0));
            if f.contains(x0) {
                assert(filtered_paths(paths, Some(f)) == r.push(x0));
                if r.contains(x) {
                    let j = choose|j: int| 0 <= j < r.len() && r[j] == x;
                    assert(r.push(x0)[j] == x);
                }
                if r.push(x0).contains(x) && x != x0 {
                    let j = choose|j: int| 0 <= j < r.len() + 1 && r.push(x0)[j] == x;
                    assert(j < r.len());
                    assert(r[j] == x);
                }
                if x == x0 {
                    assert(r.push(x0)[r.len() as int] == x0);
                }
            }
            if p.contains(x) {
                let j = choose|j: int| 0 <= j < p.len() && p[j] == x;
                assert(paths[j] == x);
            }
            if paths.contains(x) && x != x0 {
                let j = choose|j: int| 0 <= j < paths.len() && paths[j] == x;
                assert(j < p.len());
                assert(p[j] == x);
            }
            if x == x0 {
                assert(paths[paths.len() - 1] == x0);
            }
        }
        if f.len() == 0 {
            assert(!f.contains(x0));
        }
    }
}

} // verus!
