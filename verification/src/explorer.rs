//! The explorer's state: what is selected, checked, viewed, on the
//! clipboard and expanded, and how each user action changes it.

use vstd::prelude::*;
use crate::path::{image_name, is_image_name_chars, last_segment, last_segment_chars, parent_of, rewritten};
use crate::text::{
    chars_eq, chars_of, concat, copy_string, decimal, decimal_string, starts_with, starts_with_chars,
    string_from_chars, trim,
};

verus! {

/// An entry chosen in the explorer.
#[derive(Debug)]
pub struct SelectedItem {
    pub path: String,
    pub name: String,
    pub is_dir: bool,
    pub is_image: bool,
    pub is_text: bool,
}

/// An entry on the clipboard.
#[derive(Debug)]
pub struct ClipboardItem {
    pub path: String,
    pub name: String,
    pub is_dir: bool,
}

/// Whether pasting copies or moves.
#[derive(Clone, Copy, Debug, PartialEq, Eq, Structural)]
pub enum ClipboardMode {
    Copy,
    Cut,
}

/// Entries waiting to be pasted.
#[derive(Debug)]
pub struct Clipboard {
    pub items: Vec<ClipboardItem>,
    pub mode: ClipboardMode,
}

/// One file that an operation could not handle, and why.
#[derive(Debug)]
pub struct FailureItem {
    pub file: String,
    pub error: String,
}

/// A titled list of failures shown to the user.
#[derive(Debug)]
pub struct FailureReport {
    pub title: String,
    pub failures: Vec<FailureItem>,
}

/// Mathematical form of a [`SelectedItem`].
#[verifier::ext_equal]
pub struct ItemView {
    pub path: Seq<char>,
    pub name: Seq<char>,
    pub is_dir: bool,
    pub is_image: bool,
    pub is_text: bool,
}

/// Mathematical form of a [`ClipboardItem`].
#[verifier::ext_equal]
pub struct ClipItemView {
    pub path: Seq<char>,
    pub name: Seq<char>,
    pub is_dir: bool,
}

/// Mathematical form of a [`Clipboard`].
#[verifier::ext_equal]
pub struct ClipView {
    pub items: Seq<ClipItemView>,
    pub mode: ClipboardMode,
}

impl View for SelectedItem {
    type V = ItemView;

    open spec fn view(&self) -> ItemView {
        ItemView {
            path: self.path@,
            name: self.name@,
            is_dir: self.is_dir,
            is_image: self.is_image,
            is_text: self.is_text,
        }
    }
}

impl View for ClipboardItem {
    type V = ClipItemView;

    open spec fn view(&self) -> ClipItemView {
        ClipItemView { path: self.path@, name: self.name@, is_dir: self.is_dir }
    }
}

impl View for Clipboard {
    type V = ClipView;

    open spec fn view(&self) -> ClipView {
        ClipView { items: self.items@.map_values(|i: ClipboardItem| i@), mode: self.mode }
    }
}

impl View for FailureItem {
    type V = (Seq<char>, Seq<char>);

    open spec fn view(&self) -> (Seq<char>, Seq<char>) {
        (self.file@, self.error@)
    }
}

impl SelectedItem {
    /// A copy of the item.
    pub fn duplicate(&self) -> (r: SelectedItem)
        ensures
            r@ == self@,
    {
        SelectedItem {
            path: copy_string(&self.path),
            name: copy_string(&self.name),
            is_dir: self.is_dir,
            is_image: self.is_image,
            is_text: self.is_text,
        }
    }

    /// The clipboard entry for this item.
    pub fn to_clipboard_item(&self) -> (r: ClipboardItem)
        ensures
            r@ == clip_of(self@),
    {
        ClipboardItem {
            path: copy_string(&self.path),
            name: copy_string(&self.name),
            is_dir: self.is_dir,
        }
    }
}

impl ClipboardItem {
    /// A copy of the entry.
    pub fn duplicate(&self) -> (r: ClipboardItem)
        ensures
            r@ == self@,
    {
        ClipboardItem { path: copy_string(&self.path), name: copy_string(&self.name), is_dir: self.is_dir }
    }
}

/// The clipboard entry for a chosen entry.
pub open spec fn clip_of(i: ItemView) -> ClipItemView {
    ClipItemView { path: i.path, name: i.name, is_dir: i.is_dir }
}

/// No path occurs twice.
pub open spec fn unique_paths(items: Seq<ItemView>) -> bool {
    forall|i: int, j: int| 0 <= i < j < items.len() ==> (#[trigger] items[i]).path != (#[trigger] items[j]).path
}

/// No element occurs twice.
pub open spec fn no_repeats(s: Seq<Seq<char>>) -> bool {
    forall|i: int, j: int| 0 <= i < j < s.len() ==> #[trigger] s[i] != #[trigger] s[j]
}

/// Index of the item with this path, or -1.
pub open spec fn index_of_path(items: Seq<ItemView>, path: Seq<char>) -> int
    decreases items.len(),
{
    if items.len() == 0 {
        -1
    } else if items.last().path == path {
        items.len() - 1
    } else {
        index_of_path(items.drop_last(), path)
    }
}

/// The items whose path differs from `path`, in order.
pub open spec fn items_without(items: Seq<ItemView>, path: Seq<char>) -> Seq<ItemView>
    decreases items.len(),
{
    if items.len() == 0 {
        items
    } else if items.last().path != path {
        items_without(items.drop_last(), path).push(items.last())
    } else {
        items_without(items.drop_last(), path)
    }
}

/// The clipboard entries whose path differs from `path`, in order.
pub open spec fn clip_items_without(items: Seq<ClipItemView>, path: Seq<char>) -> Seq<ClipItemView>
    decreases items.len(),
{
    if items.len() == 0 {
        items
    } else if items.last().path != path {
        clip_items_without(items.drop_last(), path).push(items.last())
    } else {
        clip_items_without(items.drop_last(), path)
    }
}

/// `s` without `x`, in order.
pub open spec fn seq_without(s: Seq<Seq<char>>, x: Seq<char>) -> Seq<Seq<char>>
    decreases s.len(),
{
    if s.len() == 0 {
        s
    } else if s.last() != x {
        seq_without(s.drop_last(), x).push(s.last())
    } else {
        seq_without(s.drop_last(), x)
    }
}

/// `s` without `p` and without anything below `p/`, in order.
pub open spec fn seq_without_tree(s: Seq<Seq<char>>, p: Seq<char>) -> Seq<Seq<char>>
    decreases s.len(),
{
    if s.len() == 0 {
        s
    } else if s.last() != p && !starts_with(s.last(), p + seq!['/']) {
        seq_without_tree(s.drop_last(), p).push(s.last())
    } else {
        seq_without_tree(s.drop_last(), p)
    }
}

/// Everything the explorer shows and remembers between actions.
pub struct ExplorerState {
    pub selected: Option<SelectedItem>,
    pub clipboard: Option<Clipboard>,
    pub checked: Vec<SelectedItem>,
    pub viewed: Option<String>,
    pub refresh: u64,
    pub media_rev: u64,
    pub status: String,
    pub confirm_delete: Option<Vec<SelectedItem>>,
    pub rename_target: Option<SelectedItem>,
    pub rename_draft: String,
    pub mkdir_parent: Option<String>,
    pub mkdir_draft: String,
    pub mkfile_parent: Option<String>,
    pub mkfile_draft: String,
    pub busy: bool,
    pub show_thumbnails: bool,
    pub show_adjust: bool,
    pub show_file_manager: bool,
    pub show_stars: bool,
    pub show_filter: bool,
    pub show_export: bool,
    pub show_editor_settings: bool,
    pub editor_font_size: u32,
    pub editor_light: bool,
    pub editor_line_numbers: bool,
    pub filter_paths: Option<Vec<String>>,
    pub failure_report: Option<FailureReport>,
    pub expanded_dirs: Vec<String>,
}

/// Mathematical form of an [`ExplorerState`].
#[verifier::ext_equal]
pub struct ExplorerView {
    pub selected: Option<ItemView>,
    pub clipboard: Option<ClipView>,
    pub checked: Seq<ItemView>,
    pub viewed: Option<Seq<char>>,
    pub refresh: u64,
    pub media_rev: u64,
    pub status: Seq<char>,
    pub confirm_delete: Option<Seq<ItemView>>,
    pub rename_target: Option<ItemView>,
    pub rename_draft: Seq<char>,
    pub mkdir_parent: Option<Seq<char>>,
    pub mkdir_draft: Seq<char>,
    pub mkfile_parent: Option<Seq<char>>,
    pub mkfile_draft: Seq<char>,
    pub busy: bool,
    pub panels: (bool, bool, bool, bool, bool, bool, bool),
    pub editor: (u32, bool, bool),
    pub filter_paths: Option<Seq<Seq<char>>>,
    pub failure_report: Option<(Seq<char>, Seq<(Seq<char>, Seq<char>)>)>,
    pub expanded: Seq<Seq<char>>,
}

pub open spec fn opt_item_view(o: Option<SelectedItem>) -> Option<ItemView> {
    match o {
        Some(i) => Some(i@),
        None => None,
    }
}

pub open spec fn opt_string_view(o: Option<String>) -> Option<Seq<char>> {
    match o {
        Some(s) => Some(s@),
        None => None,
    }
}

pub open spec fn items_view(v: Seq<SelectedItem>) -> Seq<ItemView> {
    v.map_values(|i: SelectedItem| i@)
}

pub open spec fn strings_view(v: Seq<String>) -> Seq<Seq<char>> {
    v.map_values(|s: String| s@)
}

impl View for ExplorerState {
    type V = ExplorerView;

    open spec fn view(&self) -> ExplorerView {
        ExplorerView {
            selected: opt_item_view(self.selected),
            clipboard: match self.clipboard {
                Some(c) => Some(c@),
                None => None,
            },
            checked: items_view(self.checked@),
            viewed: opt_string_view(self.viewed),
            refresh: self.refresh,
            media_rev: self.media_rev,
            status: self.status@,
            confirm_delete: match self.confirm_delete {
                Some(v) => Some(items_view(v@)),
                None => None,
            },
            rename_target: opt_item_view(self.rename_target),
            rename_draft: self.rename_draft@,
            mkdir_parent: opt_string_view(self.mkdir_parent),
            mkdir_draft: self.mkdir_draft@,
            mkfile_parent: opt_string_view(self.mkfile_parent),
            mkfile_draft: self.mkfile_draft@,
            busy: self.busy,
            panels: (
                self.show_thumbnails,
                self.show_adjust,
                self.show_file_manager,
                self.show_stars,
                self.show_filter,
                self.show_export,
                self.show_editor_settings,
            ),
            editor: (self.editor_font_size, self.editor_light, self.editor_line_numbers),
            filter_paths: match self.filter_paths {
                Some(v) => Some(strings_view(v@)),
                None => None,
            },
            failure_report: match self.failure_report {
                Some(r) => Some((r.title@, r.failures@.map_values(|f: FailureItem| f@))),
                None => None,
            },
            expanded: strings_view(self.expanded_dirs@),
        }
    }
}

/// The state's invariant: no path is checked twice, no directory is
/// expanded twice, and no checked path is empty.
pub open spec fn explorer_wf(v: ExplorerView) -> bool {
    &&& unique_paths(v.checked)
    &&& forall|i: int| 0 <= i < v.checked.len() ==> (#[trigger] v.checked[i]).path.len() > 0
    &&& no_repeats(v.expanded)
}

/// The directory that the explorer works in: that of the viewed image, else
/// the selected directory, else the selected file's directory, else the root.
pub open spec fn current_dir_of(v: ExplorerView) -> Seq<char> {
    match v.viewed {
        Some(p) => parent_of(p),
        None => selected_dir_of(v),
    }
}

/// The selected directory, or the selected file's directory, or the root.
pub open spec fn selected_dir_of(v: ExplorerView) -> Seq<char> {
    match v.selected {
        Some(s) => if s.is_dir {
            s.path
        } else {
            parent_of(s.path)
        },
        None => Seq::<char>::empty(),
    }
}

/// The explorer as it starts: nothing selected, checked, viewed or copied;
/// status `就绪`; thumbnails, adjust bar and file manager shown; editor at
/// font size 15, dark, with line numbers; only the root expanded.
pub open spec fn initial_view(v: ExplorerView) -> bool {
    &&& v.selected is None
    &&& v.clipboard is None
    &&& v.checked.len() == 0
    &&& v.viewed is None
    &&& v.refresh == 0
    &&& v.media_rev == 0
    &&& v.status == "就绪"@
    &&& v.confirm_delete is None
    &&& v.rename_target is None
    &&& v.rename_draft.len() == 0
    &&& v.mkdir_parent is None
    &&& v.mkdir_draft.len() == 0
    &&& v.mkfile_parent is None
    &&& v.mkfile_draft.len() == 0
    &&& !v.busy
    &&& v.panels == (true, true, true, false, false, false, false)
    &&& v.editor == (15u32, false, true)
    &&& v.filter_paths is None
    &&& v.failure_report is None
    &&& v.expanded == seq![Seq::<char>::empty()]
}

/// The status line after putting entries on the clipboard.
pub open spec fn clipboard_label(mode: ClipboardMode, items: Seq<ClipItemView>) -> Seq<char> {
    if items.len() == 1 {
        match mode {
            ClipboardMode::Copy => "已复制："@ + items[0].name,
            ClipboardMode::Cut => "已剪切："@ + items[0].name,
        }
    } else {
        match mode {
            ClipboardMode::Copy => "已复制 "@ + decimal(items.len()) + " 项"@,
            ClipboardMode::Cut => "已剪切 "@ + decimal(items.len()) + " 项"@,
        }
    }
}

/// The state after putting entries on the clipboard (nothing happens for
/// no entries).
pub open spec fn with_clipboard(v: ExplorerView, items: Seq<ClipItemView>, mode: ClipboardMode) -> ExplorerView {
    if items.len() == 0 {
        v
    } else {
        ExplorerView {
            clipboard: Some(ClipView { items, mode }),
            status: clipboard_label(mode, items),
            ..v
        }
    }
}

/// The state after copying or cutting the selected entry: the root cannot
/// be copied or cut; nothing happens when nothing is selected.
pub open spec fn after_clip_selected(v: ExplorerView, mode: ClipboardMode) -> ExplorerView {
    match v.selected {
        None => v,
        Some(s) => if s.path.len() == 0 {
            ExplorerView {
                status: match mode {
                    ClipboardMode::Copy => "不能复制根目录"@,
                    ClipboardMode::Cut => "不能剪切根目录"@,
                },
                ..v
            }
        } else {
            with_clipboard(v, seq![clip_of(s)], mode)
        },
    }
}

/// The state after copying or cutting the checked entries.
pub open spec fn after_clip_checked(v: ExplorerView, mode: ClipboardMode) -> ExplorerView {
    if v.checked.len() == 0 {
        ExplorerView { status: "未勾选项目"@, ..v }
    } else {
        with_clipboard(v, v.checked.map_values(|i: ItemView| clip_of(i)), mode)
    }
}

/// The checked list after checking (`on`) or unchecking an entry: a new
/// entry is appended, a checked one has its other fields refreshed, an
/// unchecked one is removed. The empty path (the root) is never checked.
pub open spec fn checked_after_set(checked: Seq<ItemView>, item: ItemView, on: bool) -> Seq<ItemView> {
    let i = index_of_path(checked, item.path);
    if item.path.len() == 0 {
        checked
    } else if on {
        if i < 0 {
            checked.push(item)
        } else {
            checked.update(i, item)
        }
    } else {
        if i < 0 {
            checked
        } else {
            checked.remove(i)
        }
    }
}

pub proof fn lemma_index_of_path(items: Seq<ItemView>, path: Seq<char>)
    ensures
        -1 <= index_of_path(items, path) < items.len(),
        index_of_path(items, path) >= 0 ==> items[index_of_path(items, path)].path == path,
        index_of_path(items, path) < 0 ==> forall|j: int| 0 <= j < items.len() ==> (#[trigger] items[j]).path != path,
        forall|j: int| index_of_path(items, path) < j < items.len() ==> (#[trigger] items[j]).path != path,
    decreases items.len(),
{
    if items.len() > 0 && items.last().path != path {
        lemma_index_of_path(items.drop_last(), path);
        assert forall|j: int| index_of_path(items, path) < j < items.len() implies (#[trigger] items[j]).path != path by {
            if j < items.len() - 1 {
                assert(items[j] == items.drop_last()[j]);
            }
        }
    }
}

fn dup_items(v: &Vec<SelectedItem>) -> (r: Vec<SelectedItem>)
    ensures
        items_view(r@) == items_view(v@),
{
    let mut r: Vec<SelectedItem> = Vec::new();
    let mut i: usize = 0;
    while i < v.len()
        invariant
            i <= v.len(),
            items_view(r@) == items_view(v@.take(i as int)),
        decreases v.len() - i,
    {
        let ghost before = r@;
        r.push(v[i].duplicate());
        assert(v@.take(i + 1) =~= v@.take(i as int).push(v@[i as int]));
        assert(r@ =~= before.push(r@.last()));
        assert(items_view(r@) =~= items_view(before).push(v@[i as int]@));
        i = i + 1;
    }
    assert(v@.take(i as int) =~= v@);
    r
}

fn dup_clip_items(v: &Vec<ClipboardItem>) -> (r: Vec<ClipboardItem>)
    ensures
        r@.map_values(|i: ClipboardItem| i@) == v@.map_values(|i: ClipboardItem| i@),
{
    let mut r: Vec<ClipboardItem> = Vec::new();
    let mut i: usize = 0;
    while i < v.len()
        invariant
            i <= v.len(),
            r@.map_values(|i: ClipboardItem| i@) == v@.take(i as int).map_values(|i: ClipboardItem| i@),
        decreases v.len() - i,
    {
        let ghost before = r@;
        r.push(v[i].duplicate());
        assert(v@.take(i + 1) =~= v@.take(i as int).push(v@[i as int]));
        assert(r@ =~= before.push(r@.last()));
        assert(r@.map_values(|i: ClipboardItem| i@) =~= before.map_values(|i: ClipboardItem| i@).push(v@[i as int]@));
        i = i + 1;
    }
    assert(v@.take(i as int) =~= v@);
    r
}

fn parent_string(path: &String) -> (r: String)
    ensures
        r@ == parent_of(path@),
{
    crate::path::parent_path(path.as_str())
}

/// The state after an entry at `p` is gone: it is no longer viewed,
/// selected, checked or on the clipboard (an emptied clipboard is cleared),
/// and neither it nor anything below it stays expanded.
pub open spec fn forget_view(v: ExplorerView, p: Seq<char>) -> ExplorerView {
    ExplorerView {
        viewed: if v.viewed == Some(p) {
            None
        } else {
            v.viewed
        },
        selected: if v.selected matches Some(s) && s.path == p {
            None
        } else {
            v.selected
        },
        checked: items_without(v.checked, p),
        clipboard: match v.clipboard {
            None => None,
            Some(c) => if clip_items_without(c.items, p).len() == 0 {
                None
            } else {
                Some(ClipView { items: clip_items_without(c.items, p), mode: c.mode })
            },
        },
        expanded: if p.len() == 0 {
            v.expanded
        } else {
            seq_without_tree(v.expanded, p)
        },
        ..v
    }
}

/// An item after `old` was renamed to `new`: a moved item gets its new path,
/// the name of its last segment, and is an image when it is a file with an
/// image name.
pub open spec fn retarget_item(i: ItemView, old: Seq<char>, new: Seq<char>) -> ItemView {
    let np = rewritten(i.path, old, new);
    if np != i.path {
        ItemView {
            name: last_segment(np),
            is_image: !i.is_dir && image_name(last_segment(np)),
            path: np,
            ..i
        }
    } else {
        i
    }
}

/// A clipboard entry after `old` was renamed to `new`.
pub open spec fn retarget_clip(i: ClipItemView, old: Seq<char>, new: Seq<char>) -> ClipItemView {
    let np = rewritten(i.path, old, new);
    if np != i.path {
        ClipItemView { name: last_segment(np), path: np, ..i }
    } else {
        i
    }
}

/// The elements of `s`, each once, in the order of their first occurrence.
pub open spec fn first_occurrences(s: Seq<Seq<char>>) -> Seq<Seq<char>>
    decreases s.len(),
{
    if s.len() == 0 {
        s
    } else if s.drop_last().contains(s.last()) {
        first_occurrences(s.drop_last())
    } else {
        first_occurrences(s.drop_last()).push(s.last())
    }
}

/// The state after `old` was renamed to `new`: the viewed image follows the
/// rename (and is dropped when its new name is not an image name), and so do
/// the selected, checked and clipboard entries and the expanded directories.
pub open spec fn retarget_view(v: ExplorerView, old: Seq<char>, new: Seq<char>) -> ExplorerView {
    ExplorerView {
        viewed: match v.viewed {
            None => None,
            Some(x) => if rewritten(x, old, new) != x {
                if image_name(last_segment(rewritten(x, old, new))) {
                    Some(rewritten(x, old, new))
                } else {
                    None
                }
            } else {
                Some(x)
            },
        },
        selected: match v.selected {
            None => None,
            Some(s) => Some(retarget_item(s, old, new)),
        },
        checked: v.checked.map_values(|i: ItemView| retarget_item(i, old, new)),
        clipboard: match v.clipboard {
            None => None,
            Some(c) => Some(
                ClipView {
                    items: c.items.map_values(|i: ClipItemView| retarget_clip(i, old, new)),
                    mode: c.mode,
                },
            ),
        },
        expanded: first_occurrences(v.expanded.map_values(|k: Seq<char>| rewritten(k, old, new))),
        ..v
    }
}

fn checked_index_in(checked: &Vec<SelectedItem>, p: &[char]) -> (r: Option<usize>)
    ensures
        match r {
            Some(i) => index_of_path(items_view(checked@), p@) == i,
            None => index_of_path(items_view(checked@), p@) == -1,
        },
        r matches Some(i) ==> i < checked.len(),
{
    let ghost c = items_view(checked@);
    proof { lemma_index_of_path(c, p@); }
    let mut i: usize = checked.len();
    assert(c.take(c.len() as int) =~= c);
    while i > 0
        invariant
            i <= checked.len(),
            c == items_view(checked@),
            index_of_path(c, p@) == index_of_path(c.take(i as int), p@),
        decreases i,
    {
        assert(c.take(i as int).drop_last() =~= c.take(i - 1));
        assert(c.take(i as int).last() == checked@[i - 1]@);
        if chars_eq(chars_of(checked[i - 1].path.as_str()).as_slice(), p) {
            return Some(i - 1);
        }
        i = i - 1;
    }
    assert(c.take(0) =~= Seq::<ItemView>::empty());
    None
}

fn apply_check(checked: &mut Vec<SelectedItem>, item: SelectedItem, on: bool)
    ensures
        items_view(final(checked)@) == checked_after_set(items_view(old(checked)@), item@, on),
{
    if item.path.as_str().is_empty() {
        return;
    }
    let idx = checked_index_in(checked, chars_of(item.path.as_str()).as_slice());
    let ghost iv = item@;
    let ghost c0 = items_view(old(checked)@);
    if on {
        match idx {
            None => {
                checked.push(item);
                assert(items_view(checked@) =~= c0.push(iv));
            },
            Some(i) => {
                checked.set(i, item);
                assert(items_view(checked@) =~= c0.update(i as int, iv));
            },
        }
    } else {
        match idx {
            Some(i) => {
                checked.remove(i);
                assert(items_view(checked@) =~= c0.remove(i as int));
            },
            None => {},
        }
    }
}

fn items_without_path(v: &Vec<SelectedItem>, p: &[char]) -> (r: Vec<SelectedItem>)
    ensures
        items_view(r@) == items_without(items_view(v@), p@),
{
    let ghost c = items_view(v@);
    let mut r: Vec<SelectedItem> = Vec::new();
    let mut i: usize = 0;
    assert(c.take(0) =~= Seq::<ItemView>::empty());
    while i < v.len()
        invariant
            i <= v.len(),
            c == items_view(v@),
            items_view(r@) == items_without(c.take(i as int), p@),
        decreases v.len() - i,
    {
        assert(c.take(i + 1).drop_last() =~= c.take(i as int));
        assert(c.take(i + 1).last() == v@[i as int]@);
        if !chars_eq(chars_of(v[i].path.as_str()).as_slice(), p) {
            let ghost before = r@;
            r.push(v[i].duplicate());
            assert(items_view(r@) =~= items_view(before).push(v@[i as int]@));
        }
        i = i + 1;
    }
    assert(c.take(i as int) =~= c);
    r
}

fn clip_items_without_path(v: &Vec<ClipboardItem>, p: &[char]) -> (r: Vec<ClipboardItem>)
    ensures
        r@.map_values(|i: ClipboardItem| i@) == clip_items_without(v@.map_values(|i: ClipboardItem| i@), p@),
{
    let ghost c = v@.map_values(|i: ClipboardItem| i@);
    let mut r: Vec<ClipboardItem> = Vec::new();
    let mut i: usize = 0;
    assert(c.take(0) =~= Seq::<ClipItemView>::empty());
    while i < v.len()
        invariant
            i <= v.len(),
            c == v@.map_values(|i: ClipboardItem| i@),
            r@.map_values(|i: ClipboardItem| i@) == clip_items_without(c.take(i as int), p@),
        decreases v.len() - i,
    {
        assert(c.take(i + 1).drop_last() =~= c.take(i as int));
        assert(c.take(i + 1).last() == v@[i as int]@);
        if !chars_eq(chars_of(v[i].path.as_str()).as_slice(), p) {
            let ghost before = r@;
            r.push(v[i].duplicate());
            assert(r@.map_values(|i: ClipboardItem| i@) =~= before.map_values(|i: ClipboardItem| i@).push(v@[i as int]@));
        }
        i = i + 1;
    }
    assert(c.take(i as int) =~= c);
    r
}

fn strings_without_tree(v: &Vec<String>, p: &[char]) -> (r: Vec<String>)
    ensures
        strings_view(r@) == seq_without_tree(strings_view(v@), p@),
{
    let ghost c = strings_view(v@);
    let mut pre: Vec<char> = crate::text::sub_chars(p, 0, p.len());
    pre.push('/');
    assert(pre@ =~= p@ + seq!['/']);
    let mut r: Vec<String> = Vec::new();
    let mut i: usize = 0;
    assert(c.take(0) =~= Seq::<Seq<char>>::empty());
    while i < v.len()
        invariant
            i <= v.len(),
            c == strings_view(v@),
            pre@ == p@ + seq!['/'],
            strings_view(r@) == seq_without_tree(c.take(i as int), p@),
        decreases v.len() - i,
    {
        assert(c.take(i + 1).drop_last() =~= c.take(i as int));
        assert(c.take(i + 1).last() == v@[i as int]@);
        let e = chars_of(v[i].as_str());
        if !chars_eq(e.as_slice(), p) && !starts_with_chars(e.as_slice(), pre.as_slice()) {
            let ghost before = r@;
            r.push(copy_string(&v[i]));
            assert(strings_view(r@) =~= strings_view(before).push(v@[i as int]@));
        }
        i = i + 1;
    }
    assert(c.take(i as int) =~= c);
    r
}

fn retarget_selected(i: &SelectedItem, old: &str, new: &str) -> (r: SelectedItem)
    ensures
        r@ == retarget_item(i@, old@, new@),
{
    let np = crate::path::rewrite_prefix(i.path.as_str(), old, new);
    let npc = chars_of(np.as_str());
    if chars_eq(npc.as_slice(), chars_of(i.path.as_str()).as_slice()) {
        return i.duplicate();
    }
    let name = last_segment_chars(npc.as_slice());
    let is_image = !i.is_dir && is_image_name_chars(name.as_slice());
    SelectedItem {
        path: np,
        name: string_from_chars(name.as_slice()),
        is_dir: i.is_dir,
        is_image,
        is_text: i.is_text,
    }
}

fn retarget_clip_item(i: &ClipboardItem, old: &str, new: &str) -> (r: ClipboardItem)
    ensures
        r@ == retarget_clip(i@, old@, new@),
{
    let np = crate::path::rewrite_prefix(i.path.as_str(), old, new);
    let npc = chars_of(np.as_str());
    if chars_eq(npc.as_slice(), chars_of(i.path.as_str()).as_slice()) {
        return i.duplicate();
    }
    let name = last_segment_chars(npc.as_slice());
    ClipboardItem { path: np, name: string_from_chars(name.as_slice()), is_dir: i.is_dir }
}

fn strings_contain(v: &Vec<String>, x: &[char]) -> (r: bool)
    ensures
        r == strings_view(v@).contains(x@),
{
    let ghost c = strings_view(v@);
    let mut j: usize = 0;
    while j < v.len()
        invariant
            j <= v.len(),
            c == strings_view(v@),
            forall|k: int| 0 <= k < j ==> c[k] != x@,
        decreases v.len() - j,
    {
        if chars_eq(chars_of(v[j].as_str()).as_slice(), x) {
            assert(c[j as int] == x@);
            return true;
        }
        j = j + 1;
    }
    assert(!c.contains(x@)) by {
        if c.contains(x@) {
            let k = choose|k: int| 0 <= k < c.len() && c[k] == x@;
            assert(c[k] != x@);
        }
    }
    false
}

fn renamed_dirs(v: &Vec<String>, old: &str, new: &str) -> (r: Vec<String>)
    ensures
        strings_view(r@) == first_occurrences(strings_view(v@).map_values(|k: Seq<char>| rewritten(k, old@, new@))),
{
    let ghost m = strings_view(v@).map_values(|k: Seq<char>| rewritten(k, old@, new@));
    let mut r: Vec<String> = Vec::new();
    let mut i: usize = 0;
    assert(m.take(0) =~= Seq::<Seq<char>>::empty());
    while i < v.len()
        invariant
            i <= v.len(),
            m == strings_view(v@).map_values(|k: Seq<char>| rewritten(k, old@, new@)),
            strings_view(r@) == first_occurrences(m.take(i as int)),
            forall|x: Seq<char>| strings_view(r@).contains(x) <==> m.take(i as int).contains(x),
        decreases v.len() - i,
    {
        let ghost t = m.take(i + 1);
        assert(t.drop_last() =~= m.take(i as int));
        let nk = crate::path::rewrite_prefix(v[i].as_str(), old, new);
        assert(t.last() == nk@);
        let ghost before = strings_view(r@);
        if !strings_contain(&r, chars_of(nk.as_str()).as_slice()) {
            r.push(nk);
            assert(strings_view(r@) =~= before.push(t.last()));
            assert forall|x: Seq<char>| strings_view(r@).contains(x) <==> t.contains(x) by {
                if t.contains(x) {
                    let k = choose|k: int| 0 <= k < t.len() && t[k] == x;
                    if k < t.len() - 1 {
                        assert(t.drop_last().contains(x));
                        assert(before.contains(x));
                        let j = choose|j: int| 0 <= j < before.len() && before[j] == x;
                        assert(strings_view(r@)[j] == x);
                    } else {
                        assert(strings_view(r@)[before.len() as int] == x);
                    }
                }
                if strings_view(r@).contains(x) {
                    let j = choose|j: int| 0 <= j < strings_view(r@).len() && strings_view(r@)[j] == x;
                    if j < before.len() {
                        assert(before[j] == x);
                        assert(before.contains(x));
                        assert(m.take(i as int).contains(x));
                        assert(t.drop_last().contains(x));
                        let k = choose|k: int| 0 <= k < t.drop_last().len() && t.drop_last()[k] == x;
                        assert(t[k] == x);
                    } else {
                        assert(t[t.len() - 1] == x);
                    }
                }
            }
        } else {
            assert forall|x: Seq<char>| strings_view(r@).contains(x) <==> t.contains(x) by {
                if t.contains(x) {
                    let k = choose|k: int| 0 <= k < t.len() && t[k] == x;
                    if k < t.len() - 1 {
                        assert(t.drop_last()[k] == x);
                        assert(t.drop_last().contains(x));
                    }
                }
                if strings_view(r@).contains(x) {
                    assert(t.drop_last().contains(x));
                    let k = choose|k: int| 0 <= k < t.drop_last().len() && t.drop_last()[k] == x;
                    assert(t[k] == x);
                }
            }
        }
        i = i + 1;
    }
    assert(m.take(i as int) =~= m);
    r
}

impl ExplorerState {
    /// The explorer as it starts (see [`initial_view`]).
    pub fn new() -> (r: ExplorerState)
        ensures
            initial_view(r@),
            explorer_wf(r@),
    {
        let mut expanded: Vec<String> = Vec::new();
        expanded.push(String::new());
        let r = ExplorerState {
            selected: None,
            clipboard: None,
            checked: Vec::new(),
            viewed: None,
            refresh: 0,
            media_rev: 0,
            status: "就绪".to_owned(),
            confirm_delete: None,
            rename_target: None,
            rename_draft: String::new(),
            mkdir_parent: None,
            mkdir_draft: String::new(),
            mkfile_parent: None,
            mkfile_draft: String::new(),
            busy: false,
            show_thumbnails: true,
            show_adjust: true,
            show_file_manager: true,
            show_stars: false,
            show_filter: false,
            show_export: false,
            show_editor_settings: false,
            editor_font_size: 15,
            editor_light: false,
            editor_line_numbers: true,
            filter_paths: None,
            failure_report: None,
            expanded_dirs: expanded,
        };
        assert(r@.expanded =~= seq![Seq::<char>::empty()]);
        assert(r@.checked =~= Seq::<ItemView>::empty());
        r
    }

    /// The selected entry is a text file.
    pub fn is_text_mode(&self) -> (r: bool)
        ensures
            r == (self@.selected matches Some(s) && s.is_text),
    {
        match &self.selected {
            Some(item) => item.is_text,
            None => false,
        }
    }

    fn expanded_index(&self, p: &[char]) -> (r: Option<usize>)
        ensures
            r is None <==> !self@.expanded.contains(p@),
            r matches Some(i) ==> i < self@.expanded.len() && self@.expanded[i as int] == p@,
    {
        let ghost e = self@.expanded;
        let mut i: usize = 0;
        while i < self.expanded_dirs.len()
            invariant
                i <= self.expanded_dirs.len(),
                e == strings_view(self.expanded_dirs@),
                forall|k: int| 0 <= k < i ==> e[k] != p@,
            decreases self.expanded_dirs.len() - i,
        {
            if chars_eq(chars_of(self.expanded_dirs[i].as_str()).as_slice(), p) {
                assert(e[i as int] == p@);
                return Some(i);
            }
            i = i + 1;
        }
        assert(!e.contains(p@)) by {
            if e.contains(p@) {
                let k = choose|k: int| 0 <= k < e.len() && e[k] == p@;
                assert(e[k] != p@);
            }
        }
        None
    }

    /// The directory is expanded in the tree.
    pub fn is_expanded(&self, path: &str) -> (r: bool)
        ensures
            r == self@.expanded.contains(path@),
    {
        let p = chars_of(path);
        self.expanded_index(p.as_slice()).is_some()
    }

    /// Expands a collapsed directory or collapses an expanded one.
    pub fn toggle_expanded(&mut self, path: &str)
        ensures
            final(self)@ == (ExplorerView {
                expanded: if old(self)@.expanded.contains(path@) {
                    seq_without(old(self)@.expanded, path@)
                } else {
                    old(self)@.expanded.push(path@)
                },
                ..old(self)@
            }),
    {
        let p = chars_of(path);
        if self.expanded_index(p.as_slice()).is_none() {
            self.expanded_dirs.push(string_from_chars(p.as_slice()));
            assert(self@.expanded =~= old(self)@.expanded.push(path@));
            return;
        }
        let ghost e = old(self)@.expanded;
        let mut kept: Vec<String> = Vec::new();
        let mut i: usize = 0;
        assert(e.take(0) =~= Seq::<Seq<char>>::empty());
        while i < self.expanded_dirs.len()
            invariant
                i <= self.expanded_dirs.len(),
                e == strings_view(self.expanded_dirs@),
                p@ == path@,
                strings_view(kept@) == seq_without(e.take(i as int), path@),
            decreases self.expanded_dirs.len() - i,
        {
            assert(e.take(i + 1).drop_last() =~= e.take(i as int));
            assert(e.take(i + 1).last() == e[i as int]);
            if !chars_eq(chars_of(self.expanded_dirs[i].as_str()).as_slice(), p.as_slice()) {
                let ghost before = strings_view(kept@);
                kept.push(copy_string(&self.expanded_dirs[i]));
                assert(strings_view(kept@) =~= before.push(e[i as int]));
            }
            i = i + 1;
        }
        assert(e.take(i as int) =~= e);
        self.expanded_dirs = kept;
    }

    /// A click on a tree row: a directory is expanded or collapsed and becomes
    /// the selection; a click on a file row changes nothing.
    pub fn expand_and_select(&mut self, item: SelectedItem)
        ensures
            item.is_dir ==> final(self)@ == (ExplorerView {
                expanded: if old(self)@.expanded.contains(item.path@) {
                    seq_without(old(self)@.expanded, item.path@)
                } else {
                    old(self)@.expanded.push(item.path@)
                },
                selected: Some(item@),
                ..old(self)@
            }),
            !item.is_dir ==> final(self)@ == old(self)@,
    {
        if item.is_dir {
            self.toggle_expanded(item.path.as_str());
            self.selected = Some(item);
        }
    }

    /// Shows a titled failure report; nothing happens for no failures.
    pub fn report_failures(&mut self, title: &str, failures: Vec<FailureItem>)
        ensures
            final(self)@ == (if failures@.len() == 0 {
                old(self)@
            } else {
                ExplorerView {
                    failure_report: Some((title@, failures@.map_values(|f: FailureItem| f@))),
                    ..old(self)@
                }
            }),
    {
        if failures.len() == 0 {
            return;
        }
        self.failure_report = Some(FailureReport { title: title.to_owned(), failures });
        assert(self@.failure_report == Some((title@, failures@.map_values(|f: FailureItem| f@))));
    }

    fn checked_index(&self, p: &[char]) -> (r: Option<usize>)
        ensures
            match r {
                Some(i) => index_of_path(self@.checked, p@) == i,
                None => index_of_path(self@.checked, p@) == -1,
            },
            r matches Some(i) ==> i < self.checked.len(),
    {
        let ghost c = self@.checked;
        proof { lemma_index_of_path(c, p@); }
        let mut i: usize = self.checked.len();
        assert(c.take(c.len() as int) =~= c);
        while i > 0
            invariant
                i <= self.checked.len(),
                c == items_view(self.checked@),
                index_of_path(c, p@) == index_of_path(c.take(i as int), p@),
            decreases i,
        {
            assert(c.take(i as int).drop_last() =~= c.take(i - 1));
            assert(c.take(i as int).last() == self.checked@[i - 1]@);
            if chars_eq(chars_of(self.checked[i - 1].path.as_str()).as_slice(), p) {
                return Some(i - 1);
            }
            i = i - 1;
        }
        assert(c.take(0) =~= Seq::<ItemView>::empty());
        None
    }

    /// The path is checked.
    pub fn is_checked(&self, path: &str) -> (r: bool)
        ensures
            r == (index_of_path(self@.checked, path@) >= 0),
    {
        self.checked_index(chars_of(path).as_slice()).is_some()
    }

    /// Checks (`on`) or unchecks an entry (see [`checked_after_set`]).
    pub fn set_checked(
        &mut self,
        path: String,
        name: String,
        is_dir: bool,
        is_image: bool,
        is_text: bool,
        on: bool,
    )
        ensures
            final(self)@ == (ExplorerView {
                checked: checked_after_set(
                    old(self)@.checked,
                    ItemView { path: path@, name: name@, is_dir, is_image, is_text },
                    on,
                ),
                ..old(self)@
            }),
    {
        let item = SelectedItem { path, name, is_dir, is_image, is_text };
        apply_check(&mut self.checked, item, on);
        assert(self@ =~= ExplorerView {
            checked: checked_after_set(old(self)@.checked, item@, on),
            ..old(self)@
        });
    }

    /// Checks or unchecks an image file.
    pub fn set_image_checked(&mut self, path: String, name: String, on: bool)
        ensures
            final(self)@ == (ExplorerView {
                checked: checked_after_set(
                    old(self)@.checked,
                    ItemView { path: path@, name: name@, is_dir: false, is_image: true, is_text: false },
                    on,
                ),
                ..old(self)@
            }),
    {
        self.set_checked(path, name, false, true, false, on);
    }

    /// The directory the explorer works in (see [`current_dir_of`]).
    pub fn current_dir_rel(&self) -> (r: String)
        ensures
            r@ == current_dir_of(self@),
    {
        match &self.viewed {
            Some(p) => parent_string(p),
            None => self.selected_dir_rel(),
        }
    }

    /// The selected directory, or the selected file's directory, or the root.
    pub fn selected_dir_rel(&self) -> (r: String)
        ensures
            r@ == selected_dir_of(self@),
    {
        match &self.selected {
            Some(s) => if s.is_dir {
                copy_string(&s.path)
            } else {
                parent_string(&s.path)
            },
            None => String::new(),
        }
    }

    /// Unchecks everything (and says so); nothing happens when nothing is checked.
    pub fn uncheck_all(&mut self)
        ensures
            final(self)@ == (if old(self)@.checked.len() == 0 {
                old(self)@
            } else {
                ExplorerView { checked: Seq::empty(), status: "已取消全选"@, ..old(self)@ }
            }),
    {
        if self.checked.len() == 0 {
            return;
        }
        self.checked = Vec::new();
        self.status = "已取消全选".to_owned();
        assert(self@.checked =~= Seq::<ItemView>::empty());
    }

    #[verifier::rlimit(50)]
    fn set_clipboard(&mut self, items: Vec<ClipboardItem>, mode: ClipboardMode)
        ensures
            final(self)@ == with_clipboard(old(self)@, items@.map_values(|i: ClipboardItem| i@), mode),
    {
        if items.len() == 0 {
            return;
        }
        let label = if items.len() == 1 {
            match mode {
                ClipboardMode::Copy => concat("已复制：", items[0].name.as_str()),
                ClipboardMode::Cut => concat("已剪切：", items[0].name.as_str()),
            }
        } else {
            let n = decimal_string(items.len() as u64);
            match mode {
                ClipboardMode::Copy => concat(concat("已复制 ", n.as_str()).as_str(), " 项"),
                ClipboardMode::Cut => concat(concat("已剪切 ", n.as_str()).as_str(), " 项"),
            }
        };
        self.clipboard = Some(Clipboard { items, mode });
        self.status = label;
    }

    /// Puts the selected entry on the clipboard for copying.
    pub fn copy_selected(&mut self)
        ensures
            final(self)@ == after_clip_selected(old(self)@, ClipboardMode::Copy),
    {
        self.clip_selected(ClipboardMode::Copy);
    }

    /// Puts the selected entry on the clipboard for moving.
    pub fn cut_selected(&mut self)
        ensures
            final(self)@ == after_clip_selected(old(self)@, ClipboardMode::Cut),
    {
        self.clip_selected(ClipboardMode::Cut);
    }

    fn clip_selected(&mut self, mode: ClipboardMode)
        ensures
            final(self)@ == after_clip_selected(old(self)@, mode),
    {
        let item = match &self.selected {
            Some(item) => item.to_clipboard_item(),
            None => return,
        };
        if item.path.as_str().is_empty() {
            self.status = match mode {
                ClipboardMode::Copy => "不能复制根目录".to_owned(),
                ClipboardMode::Cut => "不能剪切根目录".to_owned(),
            };
            return;
        }
        assert(item.path@.len() > 0);
        let mut items: Vec<ClipboardItem> = Vec::new();
        items.push(item);
        assert(items@.map_values(|i: ClipboardItem| i@) =~= seq![clip_of(self@.selected->0)]);
        self.set_clipboard(items, mode);
    }

    /// The checked entries as clipboard entries.
    pub fn checked_clipboard_items(&self) -> (r: Vec<ClipboardItem>)
        ensures
            r@.map_values(|i: ClipboardItem| i@) == self@.checked.map_values(|i: ItemView| clip_of(i)),
    {
        let mut r: Vec<ClipboardItem> = Vec::new();
        let mut i: usize = 0;
        while i < self.checked.len()
            invariant
                i <= self.checked.len(),
                r@.map_values(|i: ClipboardItem| i@) == items_view(self.checked@.take(i as int)).map_values(|i: ItemView| clip_of(i)),
            decreases self.checked.len() - i,
        {
            let ghost before = r@;
            r.push(self.checked[i].to_clipboard_item());
            assert(self.checked@.take(i + 1) =~= self.checked@.take(i as int).push(self.checked@[i as int]));
            assert(r@ =~= before.push(r@.last()));
            assert(r@.map_values(|i: ClipboardItem| i@) =~= before.map_values(|i: ClipboardItem| i@).push(clip_of(self.checked@[i as int]@)));
            assert(items_view(self.checked@.take(i + 1)).map_values(|i: ItemView| clip_of(i)) =~= items_view(self.checked@.take(i as int)).map_values(|i: ItemView| clip_of(i)).push(clip_of(self.checked@[i as int]@)));
            i = i + 1;
        }
        assert(self.checked@.take(i as int) =~= self.checked@);
        r
    }

    /// Puts the checked entries on the clipboard for copying.
    pub fn copy_checked(&mut self)
        ensures
            final(self)@ == after_clip_checked(old(self)@, ClipboardMode::Copy),
    {
        self.clip_checked(ClipboardMode::Copy);
    }

    /// Puts the checked entries on the clipboard for moving.
    pub fn cut_checked(&mut self)
        ensures
            final(self)@ == after_clip_checked(old(self)@, ClipboardMode::Cut),
    {
        self.clip_checked(ClipboardMode::Cut);
    }

    fn clip_checked(&mut self, mode: ClipboardMode)
        ensures
            final(self)@ == after_clip_checked(old(self)@, mode),
    {
        let items = self.checked_clipboard_items();
        if items.len() == 0 {
            self.status = "未勾选项目".to_owned();
            return;
        }
        self.set_clipboard(items, mode);
    }

    /// Opens the new-folder dialog under the selected directory.
    pub fn request_mkdir(&mut self)
        ensures
            final(self)@ == (ExplorerView {
                mkdir_draft: "新建文件夹"@,
                mkdir_parent: Some(selected_dir_of(old(self)@)),
                ..old(self)@
            }),
    {
        let dir = self.selected_dir_rel();
        self.mkdir_draft = "新建文件夹".to_owned();
        self.mkdir_parent = Some(dir);
    }

    /// Opens the new-file dialog under the selected directory.
    pub fn request_mkfile(&mut self)
        ensures
            final(self)@ == (ExplorerView {
                mkfile_draft: "新建文件.txt"@,
                mkfile_parent: Some(selected_dir_of(old(self)@)),
                ..old(self)@
            }),
    {
        let dir = self.selected_dir_rel();
        self.mkfile_draft = "新建文件.txt".to_owned();
        self.mkfile_parent = Some(dir);
    }

    /// Opens the rename dialog for the selected entry (not for the root).
    pub fn request_rename(&mut self)
        ensures
            final(self)@ == (match old(self)@.selected {
                None => old(self)@,
                Some(s) => if s.path.len() == 0 {
                    ExplorerView { status: "不能重命名根目录"@, ..old(self)@ }
                } else {
                    ExplorerView { rename_draft: s.name, rename_target: Some(s), ..old(self)@ }
                },
            }),
    {
        let item = match &self.selected {
            Some(item) => item.duplicate(),
            None => return,
        };
        if item.path.as_str().is_empty() {
            self.status = "不能重命名根目录".to_owned();
            return;
        }
        assert(item.path@.len() > 0);
        self.rename_draft = copy_string(&item.name);
        self.rename_target = Some(item);
    }

    /// Asks to confirm deleting the selected entry (not the root).
    pub fn request_delete(&mut self)
        ensures
            final(self)@ == (match old(self)@.selected {
                None => old(self)@,
                Some(s) => if s.path.len() == 0 {
                    ExplorerView { status: "不能删除根目录"@, ..old(self)@ }
                } else {
                    ExplorerView { confirm_delete: Some(seq![s]), ..old(self)@ }
                },
            }),
    {
        let item = match &self.selected {
            Some(item) => item.duplicate(),
            None => return,
        };
        if item.path.as_str().is_empty() {
            self.status = "不能删除根目录".to_owned();
            return;
        }
        assert(item.path@.len() > 0);
        let ghost s = item@;
        let mut v: Vec<SelectedItem> = Vec::new();
        v.push(item);
        self.confirm_delete = Some(v);
        assert(self@.confirm_delete->0 =~= seq![s]);
    }

    /// Asks to confirm deleting the checked entries.
    pub fn request_delete_checked(&mut self)
        ensures
            final(self)@ == (if old(self)@.checked.len() == 0 {
                ExplorerView { status: "未勾选项目"@, ..old(self)@ }
            } else {
                ExplorerView { confirm_delete: Some(old(self)@.checked), ..old(self)@ }
            }),
    {
        if self.checked.len() == 0 {
            self.status = "未勾选项目".to_owned();
            return;
        }
        let items = dup_items(&self.checked);
        self.confirm_delete = Some(items);
    }

    /// Drops every mention of an entry that is gone (see [`forget_view`]).
    #[verifier::rlimit(50)]
    pub fn forget_path(&mut self, path: &str)
        ensures
            final(self)@ == forget_view(old(self)@, path@),
    {
        let p = chars_of(path);
        let v = forget_viewed(&self.viewed, p.as_slice());
        let sel = forget_selected(&self.selected, p.as_slice());
        let checked = items_without_path(&self.checked, p.as_slice());
        let clip = forget_clip(&self.clipboard, p.as_slice());
        let dirs = if p.len() > 0 {
            strings_without_tree(&self.expanded_dirs, p.as_slice())
        } else {
            dup_strings(&self.expanded_dirs)
        };
        self.viewed = v;
        self.selected = sel;
        self.checked = checked;
        self.clipboard = clip;
        self.expanded_dirs = dirs;
        assert(self@ =~= forget_view(old(self)@, path@));
    }

    /// Makes the state follow a rename of `from` to `to` (see [`retarget_view`]).
    #[verifier::rlimit(50)]
    pub fn retarget_path(&mut self, from: &str, to: &str)
        ensures
            final(self)@ == retarget_view(old(self)@, from@, to@),
    {
        let v = retarget_viewed(&self.viewed, from, to);
        let sel = match &self.selected {
            None => None,
            Some(s) => Some(retarget_selected(s, from, to)),
        };
        let checked = retarget_checked(&self.checked, from, to);
        let clip = retarget_clipboard(&self.clipboard, from, to);
        let dirs = renamed_dirs(&self.expanded_dirs, from, to);
        self.viewed = v;
        self.selected = sel;
        self.checked = checked;
        self.clipboard = clip;
        self.expanded_dirs = dirs;
        assert(self@ =~= retarget_view(old(self)@, from@, to@));
    }
}

fn dup_strings(v: &Vec<String>) -> (r: Vec<String>)
    ensures
        strings_view(r@) == strings_view(v@),
{
    let mut r: Vec<String> = Vec::new();
    let mut i: usize = 0;
    while i < v.len()
        invariant
            i <= v.len(),
            strings_view(r@) == strings_view(v@.take(i as int)),
        decreases v.len() - i,
    {
        let ghost before = r@;
        r.push(copy_string(&v[i]));
        assert(v@.take(i + 1) =~= v@.take(i as int).push(v@[i as int]));
        assert(strings_view(r@) =~= strings_view(before).push(v@[i as int]@));
        i = i + 1;
    }
    assert(v@.take(i as int) =~= v@);
    r
}

fn forget_viewed(v: &Option<String>, p: &[char]) -> (r: Option<String>)
    ensures
        opt_string_view(r) == (if opt_string_view(*v) == Some(p@) {
            None
        } else {
            opt_string_view(*v)
        }),
{
    match v {
        None => None,
        Some(x) => if chars_eq(chars_of(x.as_str()).as_slice(), p) {
            None
        } else {
            Some(copy_string(x))
        },
    }
}

fn forget_selected(v: &Option<SelectedItem>, p: &[char]) -> (r: Option<SelectedItem>)
    ensures
        opt_item_view(r) == (if opt_item_view(*v) matches Some(s) && s.path == p@ {
            None
        } else {
            opt_item_view(*v)
        }),
{
    match v {
        None => None,
        Some(x) => if chars_eq(chars_of(x.path.as_str()).as_slice(), p) {
            None
        } else {
            Some(x.duplicate())
        },
    }
}

fn forget_clip(v: &Option<Clipboard>, p: &[char]) -> (r: Option<Clipboard>)
    ensures
        match r {
            Some(c) => Some(c@),
            None => None,
        } == match *v {
            None => None,
            Some(c) => if clip_items_without(c@.items, p@).len() == 0 {
                None
            } else {
                Some(ClipView { items: clip_items_without(c@.items, p@), mode: c.mode })
            },
        },
{
    match v {
        None => None,
        Some(clip) => {
            let items = clip_items_without_path(&clip.items, p);
            if items.len() == 0 {
                None
            } else {
                Some(Clipboard { items, mode: clip.mode })
            }
        },
    }
}

fn retarget_viewed(v: &Option<String>, from: &str, to: &str) -> (r: Option<String>)
    ensures
        opt_string_view(r) == match opt_string_view(*v) {
            None => None,
            Some(x) => if rewritten(x, from@, to@) != x {
                if image_name(last_segment(rewritten(x, from@, to@))) {
                    Some(rewritten(x, from@, to@))
                } else {
                    None
                }
            } else {
                Some(x)
            },
        },
{
    match v {
        None => None,
        Some(x) => {
            let nv = crate::path::rewrite_prefix(x.as_str(), from, to);
            let nvc = chars_of(nv.as_str());
            if !chars_eq(nvc.as_slice(), chars_of(x.as_str()).as_slice()) {
                if is_image_name_chars(last_segment_chars(nvc.as_slice()).as_slice()) {
                    Some(nv)
                } else {
                    None
                }
            } else {
                Some(copy_string(x))
            }
        },
    }
}

fn retarget_checked(v: &Vec<SelectedItem>, from: &str, to: &str) -> (r: Vec<SelectedItem>)
    ensures
        items_view(r@) == items_view(v@).map_values(|it: ItemView| retarget_item(it, from@, to@)),
{
    let ghost c0 = items_view(v@);
    let mut checked: Vec<SelectedItem> = Vec::new();
    let mut i: usize = 0;
    while i < v.len()
        invariant
            i <= v.len(),
            c0 == items_view(v@),
            items_view(checked@) == c0.take(i as int).map_values(|it: ItemView| retarget_item(it, from@, to@)),
        decreases v.len() - i,
    {
        let ghost before = checked@;
        checked.push(retarget_selected(&v[i], from, to));
        assert(c0.take(i + 1) =~= c0.take(i as int).push(c0[i as int]));
        assert(items_view(checked@) =~= items_view(before).push(retarget_item(c0[i as int], from@, to@)));
        i = i + 1;
    }
    assert(c0.take(i as int) =~= c0);
    checked
}

fn retarget_clipboard(v: &Option<Clipboard>, from: &str, to: &str) -> (r: Option<Clipboard>)
    ensures
        match r {
            Some(c) => Some(c@),
            None => None,
        } == match *v {
            None => None,
            Some(c) => Some(
                ClipView {
                    items: c@.items.map_values(|i: ClipItemView| retarget_clip(i, from@, to@)),
                    mode: c.mode,
                },
            ),
        },
{
    match v {
        None => None,
        Some(clip) => {
            let ghost k0 = clip@.items;
            let mut items: Vec<ClipboardItem> = Vec::new();
            let mut j: usize = 0;
            while j < clip.items.len()
                invariant
                    j <= clip.items.len(),
                    k0 == clip.items@.map_values(|i: ClipboardItem| i@),
                    items@.map_values(|i: ClipboardItem| i@) == k0.take(j as int).map_values(|it: ClipItemView| retarget_clip(it, from@, to@)),
                decreases clip.items.len() - j,
            {
                let ghost before = items@;
                items.push(retarget_clip_item(&clip.items[j], from, to));
                assert(k0.take(j + 1) =~= k0.take(j as int).push(k0[j as int]));
                assert(items@.map_values(|i: ClipboardItem| i@) =~= before.map_values(|i: ClipboardItem| i@).push(retarget_clip(k0[j as int], from@, to@)));
                j = j + 1;
            }
            assert(k0.take(j as int) =~= k0);
            Some(Clipboard { items, mode: clip.mode })
        },
    }
}

/// The checked list with the given items appended, each only when its path
/// is not checked yet.
pub open spec fn add_missing(checked: Seq<ItemView>, items: Seq<ItemView>) -> Seq<ItemView>
    decreases items.len(),
{
    if items.len() == 0 {
        checked
    } else {
        let before = add_missing(checked, items.drop_last());
        if index_of_path(before, items.last().path) >= 0 {
            before
        } else {
            before.push(items.last())
        }
    }
}

/// The checkable items of a listing: its entries with a non-empty path.
pub open spec fn listing_items(entries: Seq<crate::structure::FsEntry>) -> Seq<ItemView>
    decreases entries.len(),
{
    if entries.len() == 0 {
        Seq::empty()
    } else {
        let e = entries.last();
        if e.path@.len() > 0 {
            listing_items(entries.drop_last()).push(
                ItemView { path: e.path@, name: e.name@, is_dir: e.is_dir, is_image: e.is_image, is_text: e.is_text },
            )
        } else {
            listing_items(entries.drop_last())
        }
    }
}

/// The state after the listing for "check all" came back: its entries are
/// checked (the count is reported), or the error is reported; the explorer
/// is no longer busy.
pub open spec fn after_check_all(v: ExplorerView, listing: Result<Seq<crate::structure::FsEntry>, Seq<char>>) -> ExplorerView {
    match listing {
        Ok(entries) => {
            let items = listing_items(entries);
            ExplorerView {
                checked: add_missing(v.checked, items),
                status: if items.len() == 0 {
                    "当前目录没有可勾选项目"@
                } else {
                    "已全选当前目录 "@ + decimal(items.len()) + " 项"@
                },
                busy: false,
                ..v
            }
        },
        Err(e) => ExplorerView { status: "全选失败："@ + e, busy: false, ..v },
    }
}

fn add_missing_items(checked: &mut Vec<SelectedItem>, items: Vec<SelectedItem>)
    ensures
        items_view(final(checked)@) == add_missing(items_view(old(checked)@), items_view(items@)),
{
    let ghost c0 = items_view(old(checked)@);
    let ghost iv = items_view(items@);
    let mut i: usize = 0;
    assert(iv.take(0) =~= Seq::<ItemView>::empty());
    while i < items.len()
        invariant
            i <= items.len(),
            iv == items_view(items@),
            items_view(checked@) == add_missing(c0, iv.take(i as int)),
        decreases items.len() - i,
    {
        assert(iv.take(i + 1).drop_last() =~= iv.take(i as int));
        assert(iv.take(i + 1).last() == items@[i as int]@);
        let found = checked_index_in(checked, chars_of(items[i].path.as_str()).as_slice());
        if found.is_none() {
            let ghost before = items_view(checked@);
            checked.push(items[i].duplicate());
            assert(items_view(checked@) =~= before.push(items@[i as int]@));
        }
        i = i + 1;
    }
    assert(iv.take(i as int) =~= iv);
}

fn listing_to_items(entries: &Vec<crate::structure::FsEntry>) -> (r: Vec<SelectedItem>)
    ensures
        items_view(r@) == listing_items(entries@),
{
    let mut r: Vec<SelectedItem> = Vec::new();
    let mut i: usize = 0;
    assert(entries@.take(0) =~= Seq::<crate::structure::FsEntry>::empty());
    while i < entries.len()
        invariant
            i <= entries.len(),
            items_view(r@) == listing_items(entries@.take(i as int)),
        decreases entries.len() - i,
    {
        assert(entries@.take(i + 1).drop_last() =~= entries@.take(i as int));
        assert(entries@.take(i + 1).last() == entries@[i as int]);
        let e = &entries[i];
        if !e.path.as_str().is_empty() {
            let ghost before = items_view(r@);
            r.push(SelectedItem {
                path: copy_string(&e.path),
                name: copy_string(&e.name),
                is_dir: e.is_dir,
                is_image: e.is_image,
                is_text: e.is_text,
            });
            assert(items_view(r@) =~= before.push(r@.last()@));
        }
        i = i + 1;
    }
    assert(entries@.take(i as int) =~= entries@);
    r
}

impl ExplorerState {
    /// Starts "check all" in the current directory: when not busy, marks the
    /// explorer busy and returns the directory to list.
    pub fn check_all_current(&mut self) -> (r: Option<String>)
        ensures
            old(self)@.busy ==> r is None && final(self)@ == old(self)@,
            !old(self)@.busy ==> (r matches Some(d) && d@ == current_dir_of(old(self)@)) && final(self)@
                == (ExplorerView { busy: true, ..old(self)@ }),
    {
        if self.busy {
            return None;
        }
        let dir = self.current_dir_rel();
        self.busy = true;
        Some(dir)
    }

    /// Finishes "check all" with the listing (see [`after_check_all`]).
    #[verifier::rlimit(50)]
    pub fn finish_check_all(&mut self, listing: Result<Vec<crate::structure::FsEntry>, String>)
        ensures
            final(self)@ == after_check_all(
                old(self)@,
                match listing {
                    Ok(v) => Ok(v@),
                    Err(e) => Err(e@),
                },
            ),
    {
        match listing {
            Ok(entries) => {
                let items = listing_to_items(&entries);
                let n = items.len();
                add_missing_items(&mut self.checked, items);
                self.status = if n == 0 {
                    "当前目录没有可勾选项目".to_owned()
                } else {
                    concat(concat("已全选当前目录 ", decimal_string(n as u64).as_str()).as_str(), " 项")
                };
            },
            Err(e) => {
                self.status = concat("全选失败：", e.as_str());
            },
        }
        self.busy = false;
    }
}

/// The refresh counter after one more refresh (wrapping at the top).
pub open spec fn bumped(n: u64) -> u64 {
    if n == u64::MAX {
        0
    } else {
        (n + 1) as u64
    }
}

fn bump(n: u64) -> (r: u64)
    ensures
        r == bumped(n),
{
    if n == u64::MAX {
        0
    } else {
        n + 1
    }
}

/// `s` with `x` added when it is missing.
pub open spec fn set_insert(s: Seq<Seq<char>>, x: Seq<char>) -> Seq<Seq<char>> {
    if s.contains(x) {
        s
    } else {
        s.push(x)
    }
}

/// What a create dialog does on confirm: nothing without a parent or while
/// busy; report a bad name; else become busy and hand out the parent and the
/// trimmed name.
pub open spec fn create_start(
    v: ExplorerView,
    parent: Option<Seq<char>>,
    draft: Seq<char>,
) -> (ExplorerView, Option<(Seq<char>, Seq<char>)>) {
    match parent {
        None => (v, None),
        Some(p) => if v.busy {
            (v, None)
        } else {
            match crate::path::file_name_problem(draft) {
                Some(msg) => (ExplorerView { status: msg, ..v }, None),
                None => (ExplorerView { busy: true, ..v }, Some((p, trim(draft)))),
            }
        },
    }
}

/// The state after a new file was created (or not).
pub open spec fn after_mkfile(v: ExplorerView, parent: Seq<char>, result: Result<Seq<char>, Seq<char>>) -> ExplorerView {
    match result {
        Ok(np) => ExplorerView {
            expanded: set_insert(v.expanded, parent),
            selected: Some(
                ItemView { path: np, name: last_segment(np), is_dir: false, is_image: false, is_text: true },
            ),
            mkfile_parent: None,
            refresh: bumped(v.refresh),
            status: "已新建文件："@ + last_segment(np),
            busy: false,
            ..v
        },
        Err(e) => ExplorerView { status: "新建文件失败："@ + e, busy: false, ..v },
    }
}

/// The state after a new directory was created (or not).
pub open spec fn after_mkdir(v: ExplorerView, result: Result<Seq<char>, Seq<char>>) -> ExplorerView {
    match result {
        Ok(np) => ExplorerView {
            selected: Some(
                ItemView { path: np, name: last_segment(np), is_dir: true, is_image: false, is_text: false },
            ),
            mkdir_parent: None,
            refresh: bumped(v.refresh),
            status: "已新建目录："@ + last_segment(np),
            busy: false,
            ..v
        },
        Err(e) => ExplorerView { status: "新建目录失败："@ + e, busy: false, ..v },
    }
}

/// What the rename dialog does on confirm: nothing without a target or
/// while busy; report a bad name; close the dialog when the name is
/// unchanged; else become busy and hand out the target path and new name.
pub open spec fn rename_start(v: ExplorerView) -> (ExplorerView, Option<(Seq<char>, Seq<char>)>) {
    match v.rename_target {
        None => (v, None),
        Some(t) => if v.busy {
            (v, None)
        } else {
            match crate::path::file_name_problem(v.rename_draft) {
                Some(msg) => (ExplorerView { status: msg, ..v }, None),
                None => if trim(v.rename_draft) == t.name {
                    (ExplorerView { rename_target: None, ..v }, None)
                } else {
                    (ExplorerView { busy: true, ..v }, Some((t.path, trim(v.rename_draft))))
                },
            }
        },
    }
}

/// The state after a rename finished (or failed).
pub open spec fn after_rename(v: ExplorerView, from: Seq<char>, result: Result<Seq<char>, Seq<char>>) -> ExplorerView {
    match result {
        Ok(np) => {
            let w = retarget_view(v, from, np);
            ExplorerView {
                rename_target: None,
                refresh: bumped(w.refresh),
                status: "已重命名为："@ + last_segment(np),
                busy: false,
                ..w
            }
        },
        Err(e) => ExplorerView { status: "重命名失败："@ + e, busy: false, ..v },
    }
}

impl ExplorerState {
    fn start_create(&mut self, dir: bool) -> (r: Option<(String, String)>)
        ensures
            (final(self)@, match r {
                Some((a, b)) => Some((a@, b@)),
                None => None,
            }) == create_start(
                old(self)@,
                if dir { old(self)@.mkdir_parent } else { old(self)@.mkfile_parent },
                if dir { old(self)@.mkdir_draft } else { old(self)@.mkfile_draft },
            ),
    {
        let parent = if dir {
            match &self.mkdir_parent {
                None => return None,
                Some(p) => copy_string(p),
            }
        } else {
            match &self.mkfile_parent {
                None => return None,
                Some(p) => copy_string(p),
            }
        };
        if self.busy {
            return None;
        }
        let draft = if dir { copy_string(&self.mkdir_draft) } else { copy_string(&self.mkfile_draft) };
        match crate::path::validate_file_name(draft.as_str()) {
            Err(msg) => {
                self.status = msg;
                return None;
            },
            Ok(()) => {},
        }
        let name = crate::text::trim_chars(chars_of(draft.as_str()).as_slice());
        self.busy = true;
        Some((parent, string_from_chars(name.as_slice())))
    }

    /// Confirms the new-file dialog (see [`create_start`]).
    pub fn confirm_mkfile(&mut self) -> (r: Option<(String, String)>)
        ensures
            (final(self)@, match r {
                Some((a, b)) => Some((a@, b@)),
                None => None,
            }) == create_start(old(self)@, old(self)@.mkfile_parent, old(self)@.mkfile_draft),
    {
        self.start_create(false)
    }

    /// Confirms the new-folder dialog (see [`create_start`]).
    pub fn confirm_mkdir(&mut self) -> (r: Option<(String, String)>)
        ensures
            (final(self)@, match r {
                Some((a, b)) => Some((a@, b@)),
                None => None,
            }) == create_start(old(self)@, old(self)@.mkdir_parent, old(self)@.mkdir_draft),
    {
        self.start_create(true)
    }

    /// Finishes creating a file under `parent` (see [`after_mkfile`]).
    #[verifier::rlimit(50)]
    pub fn finish_mkfile(&mut self, parent: &str, result: Result<String, String>)
        ensures
            final(self)@ == after_mkfile(
                old(self)@,
                parent@,
                match result {
                    Ok(p) => Ok(p@),
                    Err(e) => Err(e@),
                },
            ),
    {
        match result {
            Ok(np) => {
                let name = string_from_chars(last_segment_chars(chars_of(np.as_str()).as_slice()).as_slice());
                let pc = chars_of(parent);
                if !strings_contain(&self.expanded_dirs, pc.as_slice()) {
                    self.expanded_dirs.push(parent.to_owned());
                    assert(strings_view(self.expanded_dirs@) =~= strings_view(old(self).expanded_dirs@).push(parent@));
                }
                self.status = concat("已新建文件：", name.as_str());
                self.selected = Some(SelectedItem { path: np, name, is_dir: false, is_image: false, is_text: true });
                self.mkfile_parent = None;
                self.refresh = bump(self.refresh);
            },
            Err(e) => {
                self.status = concat("新建文件失败：", e.as_str());
            },
        }
        self.busy = false;
    }

    /// Finishes creating a directory (see [`after_mkdir`]).
    #[verifier::rlimit(50)]
    pub fn finish_mkdir(&mut self, result: Result<String, String>)
        ensures
            final(self)@ == after_mkdir(
                old(self)@,
                match result {
                    Ok(p) => Ok(p@),
                    Err(e) => Err(e@),
                },
            ),
    {
        match result {
            Ok(np) => {
                let name = string_from_chars(last_segment_chars(chars_of(np.as_str()).as_slice()).as_slice());
                self.status = concat("已新建目录：", name.as_str());
                self.selected = Some(SelectedItem { path: np, name, is_dir: true, is_image: false, is_text: false });
                self.mkdir_parent = None;
                self.refresh = bump(self.refresh);
            },
            Err(e) => {
                self.status = concat("新建目录失败：", e.as_str());
            },
        }
        self.busy = false;
    }

    /// Confirms the rename dialog (see [`rename_start`]).
    pub fn confirm_rename(&mut self) -> (r: Option<(String, String)>)
        ensures
            (final(self)@, match r {
                Some((a, b)) => Some((a@, b@)),
                None => None,
            }) == rename_start(old(self)@),
    {
        let (target_path, target_name) = match &self.rename_target {
            None => return None,
            Some(t) => (copy_string(&t.path), copy_string(&t.name)),
        };
        if self.busy {
            return None;
        }
        match crate::path::validate_file_name(self.rename_draft.as_str()) {
            Err(msg) => {
                self.status = msg;
                return None;
            },
            Ok(()) => {},
        }
        let name = crate::text::trim_chars(chars_of(self.rename_draft.as_str()).as_slice());
        if chars_eq(name.as_slice(), chars_of(target_name.as_str()).as_slice()) {
            self.rename_target = None;
            return None;
        }
        self.busy = true;
        Some((target_path, string_from_chars(name.as_slice())))
    }

    /// Finishes renaming `from` (see [`after_rename`]).
    #[verifier::rlimit(50)]
    pub fn finish_rename(&mut self, from: &str, result: Result<String, String>)
        ensures
            final(self)@ == after_rename(
                old(self)@,
                from@,
                match result {
                    Ok(p) => Ok(p@),
                    Err(e) => Err(e@),
                },
            ),
    {
        match result {
            Ok(np) => {
                self.retarget_path(from, np.as_str());
                let name = string_from_chars(last_segment_chars(chars_of(np.as_str()).as_slice()).as_slice());
                self.rename_target = None;
                self.refresh = bump(self.refresh);
                self.status = concat("已重命名为：", name.as_str());
            },
            Err(e) => {
                self.status = concat("重命名失败：", e.as_str());
            },
        }
        self.busy = false;
    }
}

/// How many of the first `n` outcomes succeeded before the first failure.
pub open spec fn leading_ok<T>(outs: Seq<Result<T, Seq<char>>>, n: nat) -> nat
    decreases n,
{
    if n == 0 {
        0
    } else {
        let k = leading_ok(outs, (n - 1) as nat);
        if k == n - 1 && k < outs.len() && outs[k as int] is Ok {
            (k + 1) as nat
        } else {
            k
        }
    }
}

/// The state after the first `k` deleted entries were forgotten.
pub open spec fn delete_forgets(v: ExplorerView, items: Seq<ItemView>, k: nat) -> ExplorerView
    decreases k,
{
    if k == 0 {
        v
    } else {
        forget_view(delete_forgets(v, items, (k - 1) as nat), items[k - 1].path)
    }
}

/// The state after deleting the confirmed entries one by one, stopping at
/// the first failure (`outcomes` holds what each deletion gave): the deleted
/// ones are forgotten, the result is reported, the dialog closes, the
/// listing refreshes and the explorer is no longer busy.
pub open spec fn after_delete(v: ExplorerView, items: Seq<ItemView>, outcomes: Seq<Result<(), Seq<char>>>) -> ExplorerView {
    let ok = leading_ok(outcomes, items.len());
    let w = delete_forgets(v, items, ok);
    ExplorerView {
        status: if ok < items.len() && ok < outcomes.len() && outcomes[ok as int] is Err {
            "删除失败（已完成 "@ + decimal(ok) + " 项，"@ + items[ok as int].name + "）："@
                + outcomes[ok as int]->Err_0
        } else if items.len() == 1 {
            "已删除"@
        } else {
            "已删除 "@ + decimal(ok) + " 项"@
        },
        confirm_delete: None,
        refresh: bumped(w.refresh),
        busy: false,
        ..w
    }
}

/// A paste to run: the entries, the directory to paste into, and whether
/// they move.
pub struct PastePlan {
    pub items: Vec<ClipboardItem>,
    pub dest_dir: String,
    pub cut: bool,
}

/// The state after the first `k` pasted entries: a moved entry that changed
/// path is forgotten at its old path.
pub open spec fn paste_forgets(
    v: ExplorerView,
    items: Seq<ClipItemView>,
    outcomes: Seq<Result<Seq<char>, Seq<char>>>,
    cut: bool,
    k: nat,
) -> ExplorerView
    decreases k,
{
    if k == 0 {
        v
    } else {
        let w = paste_forgets(v, items, outcomes, cut, (k - 1) as nat);
        if cut && outcomes[k - 1]->Ok_0 != items[k - 1].path {
            forget_view(w, items[k - 1].path)
        } else {
            w
        }
    }
}

/// The state after pasting the planned entries one by one, stopping at the
/// first failure: moved entries are forgotten at their old paths; after a
/// failure it is reported with the count done; else the last pasted entry
/// is selected and the paste reported; a move that fully succeeded clears
/// the clipboard; the listing refreshes and the explorer is no longer busy.
pub open spec fn after_paste(
    v: ExplorerView,
    items: Seq<ClipItemView>,
    cut: bool,
    outcomes: Seq<Result<Seq<char>, Seq<char>>>,
) -> ExplorerView {
    let ok = leading_ok(outcomes, items.len());
    paste_conclusion(paste_forgets(v, items, outcomes, cut, ok), items, cut, outcomes, ok)
}

/// The report that ends a paste in which `ok` entries succeeded.
pub open spec fn paste_conclusion(
    w: ExplorerView,
    items: Seq<ClipItemView>,
    cut: bool,
    outcomes: Seq<Result<Seq<char>, Seq<char>>>,
    ok: nat,
) -> ExplorerView {
    let failed = ok < items.len() && ok < outcomes.len() && outcomes[ok as int] is Err;
    let x = if failed {
        ExplorerView {
            status: "粘贴失败（已完成 "@ + decimal(ok) + " 项）："@ + outcomes[ok as int]->Err_0,
            ..w
        }
    } else if ok > 0 {
        let np = outcomes[ok - 1]->Ok_0;
        let it = items[ok - 1];
        let verb = if cut { "已移动"@ } else { "已粘贴"@ };
        ExplorerView {
            selected: Some(
                ItemView {
                    is_image: !it.is_dir && image_name(last_segment(np)),
                    is_text: false,
                    path: np,
                    name: last_segment(np),
                    is_dir: it.is_dir,
                },
            ),
            status: if items.len() == 1 {
                verb + "："@ + it.name
            } else {
                verb + " "@ + decimal(ok) + " 项"@
            },
            ..w
        }
    } else {
        w
    };
    ExplorerView {
        clipboard: if cut && ok == items.len() { None } else { x.clipboard },
        refresh: bumped(x.refresh),
        busy: false,
        ..x
    }
}

pub open spec fn unit_outcomes(v: Seq<Result<(), String>>) -> Seq<Result<(), Seq<char>>> {
    v.map_values(|o: Result<(), String>| match o {
        Ok(_) => Ok(()),
        Err(e) => Err(e@),
    })
}

pub open spec fn path_outcomes(v: Seq<Result<String, String>>) -> Seq<Result<Seq<char>, Seq<char>>> {
    v.map_values(|o: Result<String, String>| match o {
        Ok(p) => Ok(p@),
        Err(e) => Err(e@),
    })
}

proof fn lemma_leading_ok_step<T>(outs: Seq<Result<T, Seq<char>>>, n: nat)
    ensures
        leading_ok(outs, n) <= n,
        leading_ok(outs, n) <= outs.len() || leading_ok(outs, n) == 0,
        forall|j: int| 0 <= j < leading_ok(outs, n) ==> outs[j] is Ok,
        leading_ok(outs, n) < n ==> (leading_ok(outs, n) >= outs.len() || outs[leading_ok(outs, n) as int] is Err),
    decreases n,
{
    if n > 0 {
        lemma_leading_ok_step(outs, (n - 1) as nat);
    }
}

proof fn lemma_leading_ok_stops<T>(outs: Seq<Result<T, Seq<char>>>, m: nat, n: nat)
    requires
        leading_ok(outs, m) == m,
        m <= n,
        m >= outs.len() || outs[m as int] is Err,
    ensures
        leading_ok(outs, n) == m,
    decreases n,
{
    if n > m {
        lemma_leading_ok_stops(outs, m, (n - 1) as nat);
    }
}

impl ExplorerState {
    /// Starts deleting the confirmed entries: when there are some and the
    /// explorer is not busy, marks it busy and returns them.
    pub fn confirm_delete_selected(&mut self) -> (r: Option<Vec<SelectedItem>>)
        ensures
            match old(self)@.confirm_delete {
                None => r is None && final(self)@ == old(self)@,
                Some(items) => if old(self)@.busy {
                    r is None && final(self)@ == old(self)@
                } else {
                    (r matches Some(v) && items_view(v@) == items) && final(self)@ == (ExplorerView {
                        busy: true,
                        ..old(self)@
                    })
                },
            },
    {
        let items = match &self.confirm_delete {
            None => return None,
            Some(items) => dup_items(items),
        };
        if self.busy {
            return None;
        }
        self.busy = true;
        Some(items)
    }

    /// Finishes a deletion (see [`after_delete`]).
    #[verifier::rlimit(80)]
    pub fn finish_delete(&mut self, items: &Vec<SelectedItem>, outcomes: &Vec<Result<(), String>>)
        ensures
            final(self)@ == after_delete(old(self)@, items_view(items@), unit_outcomes(outcomes@)),
    {
        let ghost iv = items_view(items@);
        let ghost ov = unit_outcomes(outcomes@);
        let mut ok: usize = 0;
        loop
            invariant
                ok <= items.len(),
                iv == items_view(items@),
                ov == unit_outcomes(outcomes@),
                ok <= outcomes.len(),
                leading_ok(ov, ok as nat) == ok,
                self@ == delete_forgets(old(self)@, iv, ok as nat),
            ensures
                ok <= items.len(),
                ok <= outcomes.len(),
                leading_ok(ov, ok as nat) == ok,
                self@ == delete_forgets(old(self)@, iv, ok as nat),
                ok >= items.len() || ok >= outcomes.len() || ov[ok as int] is Err,
            decreases items.len() - ok,
        {
            if ok >= items.len() || ok >= outcomes.len() {
                break;
            }
            match &outcomes[ok] {
                Err(_) => break,
                Ok(()) => {},
            }
            assert(ov[ok as int] is Ok);
            self.forget_path(items[ok].path.as_str());
            ok = ok + 1;
        }
        proof {
            if ok < items.len() {
                lemma_leading_ok_stops(ov, ok as nat, items.len() as nat);
            }
        }
        let status = if ok < items.len() && ok < outcomes.len() && outcomes[ok].is_err() {
            let e = match &outcomes[ok] {
                Err(e) => copy_string(e),
                Ok(()) => String::new(),
            };
            let a = concat("删除失败（已完成 ", decimal_string(ok as u64).as_str());
            let b = concat(concat(a.as_str(), " 项，").as_str(), items[ok].name.as_str());
            concat(concat(b.as_str(), "）：").as_str(), e.as_str())
        } else if items.len() == 1 {
            "已删除".to_owned()
        } else {
            concat(concat("已删除 ", decimal_string(ok as u64).as_str()).as_str(), " 项")
        };
        self.status = status;
        self.confirm_delete = None;
        self.refresh = bump(self.refresh);
        self.busy = false;
    }
}

impl ExplorerState {
    /// Starts pasting the clipboard into the selected directory: an empty
    /// clipboard is reported; while busy nothing happens; else the explorer
    /// becomes busy and the plan is returned.
    pub fn paste_clipboard(&mut self) -> (r: Option<PastePlan>)
        ensures
            match old(self)@.clipboard {
                None => r is None && final(self)@ == (ExplorerView { status: "剪贴板为空"@, ..old(self)@ }),
                Some(c) => if old(self)@.busy {
                    r is None && final(self)@ == old(self)@
                } else {
                    (r matches Some(plan) && plan.items@.map_values(|i: ClipboardItem| i@) == c.items
                        && plan.dest_dir@ == selected_dir_of(old(self)@) && plan.cut == (c.mode
                        == ClipboardMode::Cut)) && final(self)@ == (ExplorerView { busy: true, ..old(self)@ })
                },
            },
    {
        let (items, cut) = match &self.clipboard {
            None => {
                self.status = "剪贴板为空".to_owned();
                return None;
            },
            Some(clip) => (dup_clip_items(&clip.items), clip.mode == ClipboardMode::Cut),
        };
        if self.busy {
            return None;
        }
        let dest_dir = self.selected_dir_rel();
        self.busy = true;
        Some(PastePlan { items, dest_dir, cut })
    }

    /// Finishes a paste with what each paste gave (see [`after_paste`]).
    #[verifier::rlimit(100)]
    pub fn finish_paste(&mut self, plan: &PastePlan, outcomes: &Vec<Result<String, String>>)
        ensures
            final(self)@ == after_paste(
                old(self)@,
                plan.items@.map_values(|i: ClipboardItem| i@),
                plan.cut,
                path_outcomes(outcomes@),
            ),
    {
        let ghost iv = plan.items@.map_values(|i: ClipboardItem| i@);
        let ghost ov = path_outcomes(outcomes@);
        let items = &plan.items;
        let mut ok: usize = 0;
        loop
            invariant
                ok <= items.len(),
                ok <= outcomes.len(),
                iv == items@.map_values(|i: ClipboardItem| i@),
                ov == path_outcomes(outcomes@),
                leading_ok(ov, ok as nat) == ok,
                self@ == paste_forgets(old(self)@, iv, ov, plan.cut, ok as nat),
            ensures
                ok <= items.len(),
                ok <= outcomes.len(),
                leading_ok(ov, ok as nat) == ok,
                self@ == paste_forgets(old(self)@, iv, ov, plan.cut, ok as nat),
                ok >= items.len() || ok >= outcomes.len() || ov[ok as int] is Err,
            decreases items.len() - ok,
        {
            if ok >= items.len() || ok >= outcomes.len() {
                break;
            }
            let np = match &outcomes[ok] {
                Err(_) => break,
                Ok(p) => p,
            };
            assert(ov[ok as int] is Ok && ov[ok as int]->Ok_0 == np@);
            if plan.cut && !chars_eq(chars_of(np.as_str()).as_slice(), chars_of(items[ok].path.as_str()).as_slice()) {
                self.forget_path(items[ok].path.as_str());
            }
            ok = ok + 1;
        }
        proof {
            if ok < items.len() {
                lemma_leading_ok_stops(ov, ok as nat, items.len() as nat);
            }
        }
        proof { lemma_leading_ok_step(ov, ok as nat); }
        self.conclude_paste(plan, outcomes, ok);
    }

    #[verifier::rlimit(100)]
    #[verifier::spinoff_prover]
    fn conclude_paste(&mut self, plan: &PastePlan, outcomes: &Vec<Result<String, String>>, ok: usize)
        requires
            ok <= plan.items.len(),
            ok <= outcomes.len(),
            forall|j: int| 0 <= j < ok ==> path_outcomes(outcomes@)[j] is Ok,
        ensures
            final(self)@ == paste_conclusion(
                old(self)@,
                plan.items@.map_values(|i: ClipboardItem| i@),
                plan.cut,
                path_outcomes(outcomes@),
                ok as nat,
            ),
    {
        let ghost ov = path_outcomes(outcomes@);
        let items = &plan.items;
        let failed = ok < items.len() && ok < outcomes.len() && outcomes[ok].is_err();
        if failed {
            let e = match &outcomes[ok] {
                Err(e) => copy_string(e),
                Ok(_) => String::new(),
            };
            let a = concat(concat("粘贴失败（已完成 ", decimal_string(ok as u64).as_str()).as_str(), " 项）：");
            self.status = concat(a.as_str(), e.as_str());
        } else if ok > 0 {
            assert(ov[ok - 1] is Ok);
            let np = match &outcomes[ok - 1] {
                Ok(p) => copy_string(p),
                Err(_) => String::new(),
            };
            assert(np@ == ov[ok - 1]->Ok_0);
            let it = &items[ok - 1];
            let name = string_from_chars(last_segment_chars(chars_of(np.as_str()).as_slice()).as_slice());
            let is_image = !it.is_dir && is_image_name_chars(chars_of(name.as_str()).as_slice());
            let verb = if plan.cut { "已移动" } else { "已粘贴" };
            let status = if items.len() == 1 {
                concat(concat(verb, "：").as_str(), it.name.as_str())
            } else {
                concat(concat(concat(verb, " ").as_str(), decimal_string(ok as u64).as_str()).as_str(), " 项")
            };
            self.selected = Some(SelectedItem { is_image, is_text: false, path: np, name, is_dir: it.is_dir });
            self.status = status;
        }
        if plan.cut && ok == items.len() {
            self.clipboard = None;
        }
        self.refresh = bump(self.refresh);
        self.busy = false;
    }
}

impl ExplorerState {
    /// A click on a tree row's name: the item becomes the selection, and an
    /// image also the viewed one.
    pub fn select_item(&mut self, item: SelectedItem)
        ensures
            final(self)@ == (ExplorerView {
                selected: Some(item@),
                viewed: if item.is_image { Some(item.path@) } else { old(self)@.viewed },
                ..old(self)@
            }),
    {
        if item.is_image {
            self.viewed = Some(copy_string(&item.path));
        }
        self.selected = Some(item);
    }

    /// The viewer moves to an image: it becomes the viewed image and the
    /// selection (a file, an image, not text).
    pub fn view_image(&mut self, path: String, name: String)
        ensures
            final(self)@ == (ExplorerView {
                viewed: Some(path@),
                selected: Some(ItemView { path: path@, name: name@, is_dir: false, is_image: true, is_text: false }),
                ..old(self)@
            }),
    {
        self.viewed = Some(copy_string(&path));
        self.selected = Some(SelectedItem { path, name, is_dir: false, is_image: true, is_text: false });
    }

    /// The refresh button: the tree is reloaded (the refresh counter moves
    /// on) and, when asked, every check is cleared; the status says so.
    pub fn refresh_tree(&mut self, clear_checked: bool)
        ensures
            final(self)@ == (ExplorerView {
                refresh: bumped(old(self)@.refresh),
                checked: if clear_checked { Seq::empty() } else { old(self)@.checked },
                status: if clear_checked { "已刷新，已清空勾选"@ } else { "已刷新"@ },
                ..old(self)@
            }),
    {
        self.refresh = bump(self.refresh);
        if clear_checked {
            self.checked = Vec::new();
            assert(self@.checked =~= Seq::<ItemView>::empty());
            self.status = "已刷新，已清空勾选".to_owned();
        } else {
            self.status = "已刷新".to_owned();
        }
    }
}

/// The file names of failures, in order.
pub open spec fn failure_files(items: Seq<FailureItem>) -> Seq<Seq<char>> {
    items.map_values(|f: FailureItem| f.file@)
}

/// A failure report's file list as it is copied: the non-empty file names,
/// one per line.
pub fn failure_file_list(items: &Vec<FailureItem>) -> (r: String)
    ensures
        r@ == crate::text::join_with(crate::text::non_empty(failure_files(items@)), seq!['\n']),
{
    let ghost files = failure_files(items@);
    let mut names: Vec<Vec<char>> = Vec::new();
    let mut i: usize = 0;
    while i < items.len()
        invariant
            i <= items.len(),
            files == failure_files(items@),
            names@.map_values(|p: Vec<char>| p@) == crate::text::non_empty(files.take(i as int)),
        decreases items.len() - i,
    {
        assert(files.take(i + 1).drop_last() =~= files.take(i as int));
        assert(files.take(i + 1).last() == items@[i as int].file@);
        let f = chars_of(items[i].file.as_str());
        if f.len() > 0 {
            let ghost before = names@.map_values(|p: Vec<char>| p@);
            names.push(f);
            assert(names@.map_values(|p: Vec<char>| p@) =~= before.push(items@[i as int].file@));
        }
        i = i + 1;
    }
    assert(files.take(items.len() as int) =~= files);
    let mut sep: Vec<char> = Vec::new();
    sep.push('\n');
    assert(sep@ =~= seq!['\n']);
    let joined = crate::text::join_chars(&names, sep.as_slice());
    string_from_chars(joined.as_slice())
}

} // verus!
