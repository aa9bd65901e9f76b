//! Directory listings and image scans: which entries are shown, in which
//! order, and how a (possibly recursive) scan of a folder for images walks
//! its subfolders and where it stops.

use vstd::prelude::*;
use vstd::multiset::Multiset;
use crate::filter::{lowercase, to_lowercase};
use crate::sniff::FileKind;
use crate::structure::{FsEntry, ImageList};
use crate::text::{chars_eq, chars_of, copy_string};

verus! {

broadcast use vstd::seq_lib::group_to_multiset_ensures, vstd::multiset::group_multiset_axioms;

/// `a` comes before `b` in the order of their characters' code points
/// (the order in which `String`s compare).
pub open spec fn lex_lt(a: Seq<char>, b: Seq<char>) -> bool
    decreases a.len(),
{
    if a.len() == 0 {
        b.len() > 0
    } else if b.len() == 0 {
        false
    } else if (a[0] as u32) < (b[0] as u32) {
        true
    } else if a[0] == b[0] {
        lex_lt(a.drop_first(), b.drop_first())
    } else {
        false
    }
}

/// Sort keys: a rank (lower first), then the text.
pub open spec fn key_lt(a: (u8, Seq<char>), b: (u8, Seq<char>)) -> bool {
    a.0 < b.0 || (a.0 == b.0 && lex_lt(a.1, b.1))
}

pub open spec fn key_of<T>(x: (u8, Vec<char>, T)) -> (u8, Seq<char>) {
    (x.0, x.1@)
}

/// Every item's key is at most that of every later item.
pub open spec fn keys_sorted<T>(s: Seq<(u8, Vec<char>, T)>) -> bool {
    forall|i: int, j: int| 0 <= i < j < s.len() ==> !key_lt(key_of(#[trigger] s[j]), key_of(#[trigger] s[i]))
}

proof fn lemma_lex_lt_transitive(a: Seq<char>, b: Seq<char>, c: Seq<char>)
    requires
        lex_lt(a, b),
        lex_lt(b, c),
    ensures
        lex_lt(a, c),
    decreases a.len(),
{
    if a.len() > 0 && b.len() > 0 && c.len() > 0 && a[0] == b[0] && b[0] == c[0] {
        lemma_lex_lt_transitive(a.drop_first(), b.drop_first(), c.drop_first());
    }
}

proof fn lemma_lex_lt_irreflexive(a: Seq<char>)
    ensures
        !lex_lt(a, a),
    decreases a.len(),
{
    if a.len() > 0 {
        lemma_lex_lt_irreflexive(a.drop_first());
    }
}

proof fn lemma_key_lt_transitive(a: (u8, Seq<char>), b: (u8, Seq<char>), c: (u8, Seq<char>))
    requires
        key_lt(a, b),
        key_lt(b, c),
    ensures
        key_lt(a, c),
{
    if a.0 == b.0 && b.0 == c.0 {
        lemma_lex_lt_transitive(a.1, b.1, c.1);
    }
}

fn lex_less(a: &[char], b: &[char]) -> (r: bool)
    ensures
        r == lex_lt(a@, b@),
{
    let mut i: usize = 0;
    assert(a@.subrange(0, a@.len() as int) =~= a@);
    assert(b@.subrange(0, b@.len() as int) =~= b@);
    while i < a.len() && i < b.len()
        invariant
            i <= a.len(),
            i <= b.len(),
            lex_lt(a@, b@) == lex_lt(a@.subrange(i as int, a@.len() as int), b@.subrange(i as int, b@.len() as int)),
        decreases a.len() - i,
    {
        let ghost sa = a@.subrange(i as int, a@.len() as int);
        let ghost sb = b@.subrange(i as int, b@.len() as int);
        assert(sa[0] == a@[i as int] && sb[0] == b@[i as int]);
        if (a[i] as u32) < (b[i] as u32) {
            return true;
        }
        if a[i] != b[i] {
            return false;
        }
        assert(sa.drop_first() =~= a@.subrange(i + 1, a@.len() as int));
        assert(sb.drop_first() =~= b@.subrange(i + 1, b@.len() as int));
        i = i + 1;
    }
    i == a.len() && i < b.len()
}

fn key_less(a: u8, ak: &[char], b: u8, bk: &[char]) -> (r: bool)
    ensures
        r == key_lt((a, ak@), (b, bk@)),
{
    a < b || (a == b && lex_less(ak, bk))
}

/// The items ordered by key (rank first, then text), each item kept. (An
/// item is placed after those with an equal key; that this keeps their
/// order is not stated.)
pub fn sort_keyed<T>(items: Vec<(u8, Vec<char>, T)>) -> (r: Vec<(u8, Vec<char>, T)>)
    ensures
        keys_sorted(r@),
        r@.to_multiset() == items@.to_multiset(),
        r@.len() == items@.len(),
{
    let ghost orig = items@;
    let mut rest = items;
    let mut out: Vec<(u8, Vec<char>, T)> = Vec::new();
    while rest.len() > 0
        invariant
            keys_sorted(out@),
            out@.to_multiset().add(rest@.to_multiset()) == orig.to_multiset(),
            out@.len() + rest@.len() == orig.len(),
        decreases rest.len(),
    {
        let ghost r0 = rest@;
        let x = rest.remove(0);
        assert(r0.remove(0).to_multiset() == r0.to_multiset().remove(r0[0]));
        assert(r0.to_multiset().count(x) > 0);
        assert(out@.to_multiset().add(rest@.to_multiset()) =~= orig.to_multiset().remove(x));
        let mut p: usize = 0;
        while p < out.len() && !key_less(x.0, x.1.as_slice(), out[p].0, out[p].1.as_slice())
            invariant
                p <= out.len(),
                keys_sorted(out@),
                out@.to_multiset().add(rest@.to_multiset()) == orig.to_multiset().remove(x),
                out@.len() + rest@.len() + 1 == orig.len(),
                forall|k: int| 0 <= k < p ==> !key_lt(key_of(x), key_of(#[trigger] out@[k])),
            decreases out.len() - p,
        {
            p = p + 1;
        }
        let ghost o0 = out@;
        proof {
            assert forall|j: int| p <= j < o0.len() implies !key_lt(key_of(#[trigger] o0[j]), key_of(x)) by {
                if key_lt(key_of(o0[j]), key_of(x)) {
                    assert(key_lt(key_of(x), key_of(o0[p as int])));
                    lemma_key_lt_transitive(key_of(o0[j]), key_of(x), key_of(o0[p as int]));
                    if j > p {
                        assert(!key_lt(key_of(o0[j]), key_of(o0[p as int])));
                    } else {
                        lemma_lex_lt_irreflexive(key_of(o0[j]).1);
                    }
                }
            }
        }
        out.insert(p, x);
        proof {
            let o1 = out@;
            assert(o1 == o0.insert(p as int, x));
            assert forall|i: int, j: int| 0 <= i < j < o1.len() implies !key_lt(key_of(#[trigger] o1[j]), key_of(#[trigger] o1[i])) by {
                if i < p && j < p {
                    assert(o1[i] == o0[i] && o1[j] == o0[j]);
                } else if i < p && j == p {
                    assert(o1[i] == o0[i] && o1[j] == x);
                } else if i < p {
                    assert(o1[i] == o0[i] && o1[j] == o0[j - 1]);
                } else if i == p {
                    assert(o1[i] == x && o1[j] == o0[j - 1]);
                } else {
                    assert(o1[i] == o0[i - 1] && o1[j] == o0[j - 1]);
                }
            }
            assert(o1.to_multiset() == o0.to_multiset().insert(x));
            assert(orig.to_multiset().count(x) > 0);
            assert(o1.to_multiset().add(rest@.to_multiset()) =~= orig.to_multiset());
        }
    }
    assert(rest@.to_multiset() =~= Multiset::empty());
    out
}

/// The entry shown for a directory item: hidden (`.`-prefixed) names are
/// skipped; files are marked as images or text by their sniffed kind.
pub fn entry_for(name: String, rel: String, is_dir: bool, kind: FileKind) -> (r: Option<FsEntry>)
    ensures
        name@.len() > 0 && name@[0] == '.' ==> r is None,
        !(name@.len() > 0 && name@[0] == '.') ==> (r matches Some(e) && e.name@ == name@ && e.path@ == rel@
            && e.is_dir == is_dir && e.is_image == (!is_dir && kind == FileKind::Image)
            && e.is_text == (!is_dir && kind == FileKind::Text)),
{
    let n = chars_of(name.as_str());
    if n.len() > 0 && n[0] == '.' {
        return None;
    }
    let is_image = !is_dir && kind == FileKind::Image;
    let is_text = !is_dir && kind == FileKind::Text;
    Some(FsEntry { name, path: rel, is_dir, is_image, is_text })
}

/// Listing order: directories first, then by lower-cased name.
pub open spec fn entries_in_order(s: Seq<FsEntry>) -> bool {
    forall|i: int, j: int| 0 <= i < j < s.len() ==> !key_lt(
        (if (#[trigger] s[j]).is_dir { 0u8 } else { 1u8 }, lowercase(s[j].name@)),
        (if (#[trigger] s[i]).is_dir { 0u8 } else { 1u8 }, lowercase(s[i].name@)),
    )
}

/// The entries of a listing in display order (see [`entries_in_order`]),
/// each entry kept.
pub fn sort_entries(entries: Vec<FsEntry>) -> (r: Vec<FsEntry>)
    ensures
        entries_in_order(r@),
        r@.len() == entries@.len(),
        r@.to_multiset() == entries@.to_multiset(),
{
    let ghost orig = entries@;
    let mut src = entries;
    let mut keyed: Vec<(u8, Vec<char>, FsEntry)> = Vec::new();
    while src.len() > 0
        invariant
            keyed@.map_values(|x: (u8, Vec<char>, FsEntry)| x.2).to_multiset().add(src@.to_multiset()) == orig.to_multiset(),
            keyed@.len() + src@.len() == orig.len(),
            forall|k: int| 0 <= k < keyed@.len() ==> key_of(#[trigger] keyed@[k]) == (
                if keyed@[k].2.is_dir { 0u8 } else { 1u8 },
                lowercase(keyed@[k].2.name@),
            ),
        decreases src.len(),
    {
        let ghost s0 = src@;
        let ghost k0 = keyed@;
        let e = src.remove(0);
        assert(s0.remove(0).to_multiset() == s0.to_multiset().remove(s0[0]));
        let rank: u8 = if e.is_dir { 0 } else { 1 };
        let low = chars_of(to_lowercase(e.name.as_str()).as_str());
        keyed.push((rank, low, e));
        assert(keyed@.map_values(|x: (u8, Vec<char>, FsEntry)| x.2) =~= k0.map_values(|x: (u8, Vec<char>, FsEntry)| x.2).push(s0[0]));
    }
    let ghost kv = keyed@;
    let sorted = sort_keyed(keyed);
    let ghost sv = sorted@;
    proof {
        assert(src@.to_multiset() =~= Multiset::empty());
        assert forall|k: int| 0 <= k < sv.len() implies key_of(#[trigger] sv[k]) == (
            if sv[k].2.is_dir { 0u8 } else { 1u8 },
            lowercase(sv[k].2.name@),
        ) by {
            assert(sv.to_multiset().count(sv[k]) > 0);
            assert(kv.to_multiset().count(sv[k]) > 0);
            assert(kv.contains(sv[k]));
            let m = choose|m: int| 0 <= m < kv.len() && kv[m] == sv[k];
            assert(key_of(kv[m]) == (if kv[m].2.is_dir { 0u8 } else { 1u8 }, lowercase(kv[m].2.name@)));
        }
    }
    let mut r: Vec<FsEntry> = Vec::new();
    let mut rest = sorted;
    while rest.len() > 0
        invariant
            r@.len() + rest@.len() == sv.len(),
            r@ == sv.take(r@.len() as int).map_values(|x: (u8, Vec<char>, FsEntry)| x.2),
            rest@ == sv.skip(r@.len() as int),
        decreases rest.len(),
    {
        let ghost n = r@.len();
        let x = rest.remove(0);
        r.push(x.2);
        assert(sv.take(n as int + 1).map_values(|x: (u8, Vec<char>, FsEntry)| x.2) =~= sv.take(n as int).map_values(|x: (u8, Vec<char>, FsEntry)| x.2).push(sv[n as int].2));
        assert(rest@ =~= sv.skip(n as int + 1));
    }
    proof {
        assert(sv.take(sv.len() as int) =~= sv);
        let proj = |x: (u8, Vec<char>, FsEntry)| x.2;
        assert(r@ == sv.map_values(proj));
        assert forall|i: int, j: int| 0 <= i < j < r@.len() implies !key_lt(
            (if (#[trigger] r@[j]).is_dir { 0u8 } else { 1u8 }, lowercase(r@[j].name@)),
            (if (#[trigger] r@[i]).is_dir { 0u8 } else { 1u8 }, lowercase(r@[i].name@)),
        ) by {
            assert(r@[i] == sv[i].2 && r@[j] == sv[j].2);
            assert(key_of(sv[i]) == (if sv[i].2.is_dir { 0u8 } else { 1u8 }, lowercase(sv[i].2.name@)));
            assert(key_of(sv[j]) == (if sv[j].2.is_dir { 0u8 } else { 1u8 }, lowercase(sv[j].2.name@)));
        }
        lemma_map_multiset(kv, sv, proj);
    }
    r
}

/// The most images a gallery lists.
pub const MAX_GALLERY_IMAGES: usize = 10000;

/// One image found by a scan: its relative path, modification time
/// (seconds since the epoch) and size in bytes.
#[derive(Debug, PartialEq, Eq)]
pub struct ImageRecord {
    pub path: String,
    pub mtime: u64,
    pub size: u64,
}

/// The images found by a scan, and whether the scan was cut short.
#[derive(Debug, PartialEq, Eq)]
pub struct ImageScan {
    pub truncated: bool,
    pub records: Vec<ImageRecord>,
}

pub open spec fn record_view(r: ImageRecord) -> (Seq<char>, u64, u64) {
    (r.path@, r.mtime, r.size)
}

pub open spec fn records_view(v: Seq<ImageRecord>) -> Seq<(Seq<char>, u64, u64)> {
    v.map_values(|r: ImageRecord| record_view(r))
}

impl ImageRecord {
    /// A copy of the record.
    pub fn duplicate(&self) -> (r: ImageRecord)
        ensures
            record_view(r) == record_view(*self),
    {
        ImageRecord { path: copy_string(&self.path), mtime: self.mtime, size: self.size }
    }
}

impl ImageScan {
    /// A copy of the scan.
    pub fn duplicate(&self) -> (r: ImageScan)
        ensures
            r.truncated == self.truncated,
            records_view(r.records@) == records_view(self.records@),
    {
        let mut v: Vec<ImageRecord> = Vec::new();
        let mut i: usize = 0;
        while i < self.records.len()
            invariant
                i <= self.records.len(),
                records_view(v@) =~= records_view(self.records@.take(i as int)),
            decreases self.records.len() - i,
        {
            let ghost before = v@;
            v.push(self.records[i].duplicate());
            assert(self.records@.take(i + 1) =~= self.records@.take(i as int).push(self.records@[i as int]));
            assert(records_view(v@) =~= records_view(before).push(record_view(self.records@[i as int])));
            assert(records_view(v@) =~= records_view(self.records@.take(i + 1)));
            i = i + 1;
        }
        assert(self.records@.take(i as int) =~= self.records@);
        ImageScan { truncated: self.truncated, records: v }
    }

    /// The gallery's list: the scanned paths, in order.
    pub fn image_list(&self) -> (r: ImageList)
        ensures
            r.truncated == self.truncated,
            r.paths@.map_values(|s: String| s@) == self.records@.map_values(|x: ImageRecord| x.path@),
    {
        let mut v: Vec<String> = Vec::new();
        let mut i: usize = 0;
        while i < self.records.len()
            invariant
                i <= self.records.len(),
                v@.map_values(|s: String| s@) =~= self.records@.take(i as int).map_values(|x: ImageRecord| x.path@),
            decreases self.records.len() - i,
        {
            let ghost before = v@;
            v.push(copy_string(&self.records[i].path));
            assert(self.records@.take(i + 1) =~= self.records@.take(i as int).push(self.records@[i as int]));
            assert(v@.map_values(|s: String| s@) =~= before.map_values(|s: String| s@).push(self.records@[i as int].path@));
            assert(v@.map_values(|s: String| s@) =~= self.records@.take(i + 1).map_values(|x: ImageRecord| x.path@));
            i = i + 1;
        }
        assert(self.records@.take(i as int) =~= self.records@);
        ImageList { truncated: self.truncated, paths: v }
    }
}

/// A scan of a folder for images in progress: the images found so far,
/// whether it was cut short, the folders still to read (the last one next),
/// whether subfolders are read, and whether it has stopped.
pub struct ImageScanner {
    pub records: Vec<ImageRecord>,
    pub truncated: bool,
    pub stack: Vec<String>,
    pub recursive: bool,
    pub stopped: bool,
}

/// Mathematical form of an [`ImageScanner`].
#[verifier::ext_equal]
pub struct ScanView {
    pub records: Seq<(Seq<char>, u64, u64)>,
    pub truncated: bool,
    pub stack: Seq<Seq<char>>,
    pub recursive: bool,
    pub stopped: bool,
}

impl View for ImageScanner {
    type V = ScanView;

    open spec fn view(&self) -> ScanView {
        ScanView {
            records: records_view(self.records@),
            truncated: self.truncated,
            stack: self.stack@.map_values(|s: String| s@),
            recursive: self.recursive,
            stopped: self.stopped,
        }
    }
}

/// The records of images in a folder, in the order they are listed: by
/// lower-cased name.
pub open spec fn listed_records(s: Seq<(u8, Vec<char>, ImageRecord)>) -> Seq<(Seq<char>, u64, u64)> {
    s.map_values(|x: (u8, Vec<char>, ImageRecord)| record_view(x.2))
}

impl ImageScanner {
    /// A scan that starts at the folder `root`.
    pub fn new(root: String, recursive: bool) -> (r: ImageScanner)
        ensures
            r@ == (ScanView {
                records: Seq::empty(),
                truncated: false,
                stack: seq![root@],
                recursive,
                stopped: false,
            }),
    {
        let mut stack: Vec<String> = Vec::new();
        stack.push(root);
        let r = ImageScanner { records: Vec::new(), truncated: false, stack, recursive, stopped: false };
        assert(r@ =~= ScanView { records: Seq::empty(), truncated: false, stack: seq![r.stack@[0]@], recursive, stopped: false });
        r
    }

    /// The next folder to read: none once the scan has stopped or no folder
    /// is left; a scan that already holds the most images stops (cut short)
    /// instead, dropping the folder it took.
    pub fn next_dir(&mut self) -> (r: Option<String>)
        ensures
            old(self)@.stopped || old(self)@.stack.len() == 0 ==> r is None && final(self)@ == old(self)@,
            !old(self)@.stopped && old(self)@.stack.len() > 0 && old(self)@.records.len() >= MAX_GALLERY_IMAGES ==>
                r is None && final(self)@ == (ScanView {
                    truncated: true,
                    stopped: true,
                    stack: old(self)@.stack.drop_last(),
                    ..old(self)@
                }),
            !old(self)@.stopped && old(self)@.stack.len() > 0 && old(self)@.records.len() < MAX_GALLERY_IMAGES ==>
                (r matches Some(d) && d@ == old(self)@.stack.last()) && final(self)@ == (ScanView {
                    stack: old(self)@.stack.drop_last(),
                    ..old(self)@
                }),
    {
        if self.stopped {
            return None;
        }
        let ghost st = self.stack@;
        let d = match self.stack.pop() {
            None => return None,
            Some(d) => d,
        };
        assert(self@.stack =~= old(self)@.stack.drop_last());
        assert(d@ == old(self)@.stack.last()) by {
            assert(st.last() == d);
        }
        if self.records.len() >= MAX_GALLERY_IMAGES {
            self.truncated = true;
            self.stopped = true;
            return None;
        }
        Some(d)
    }

    /// Takes in what reading a folder found: the images (keyed by their
    /// lower-cased names) are listed in name order, as many as fit under
    /// the limit (the scan is cut short when one does not fit); with
    /// subfolders, those (keyed likewise) are queued so that they are read
    /// in name order.
    pub fn absorb(&mut self, images: Vec<(u8, Vec<char>, ImageRecord)>, subdirs: Vec<(u8, Vec<char>, String)>)
        requires
            old(self)@.records.len() <= MAX_GALLERY_IMAGES,
        ensures
            final(self)@.records.len() <= MAX_GALLERY_IMAGES,
            final(self)@.recursive == old(self)@.recursive,
            final(self)@.stopped == old(self)@.stopped,
            final(self)@.truncated == (old(self)@.truncated
                || old(self)@.records.len() + images@.len() > MAX_GALLERY_IMAGES),
            exists|s: Seq<(u8, Vec<char>, ImageRecord)>| #![trigger keys_sorted(s)]
                keys_sorted(s) && s.to_multiset() == images@.to_multiset()
                && final(self)@.records == old(self)@.records + listed_records(s).take(
                    if old(self)@.records.len() + s.len() > MAX_GALLERY_IMAGES {
                        MAX_GALLERY_IMAGES - old(self)@.records.len()
                    } else {
                        s.len() as int
                    },
                ),
            !old(self)@.recursive ==> final(self)@.stack == old(self)@.stack,
            old(self)@.recursive ==> exists|t: Seq<(u8, Vec<char>, String)>| #![trigger keys_sorted(t)]
                keys_sorted(t) && t.to_multiset() == subdirs@.to_multiset()
                && final(self)@.stack == old(self)@.stack + t.map_values(|x: (u8, Vec<char>, String)| x.2@).reverse(),
    {
        let ghost r0 = self@.records;
        let sorted = sort_keyed(images);
        let ghost s = sorted@;
        let n0 = self.records.len();
        let room: usize = MAX_GALLERY_IMAGES - n0;
        let count: usize = if sorted.len() > room { room } else { sorted.len() };
        let over = sorted.len() > room;
        let mut rest = sorted;
        let mut taken: usize = 0;
        while taken < count
            invariant
                n0 == r0.len(),
                n0 <= MAX_GALLERY_IMAGES,
                room == MAX_GALLERY_IMAGES - n0,
                count == (if s.len() > room { room as int } else { s.len() as int }),
                taken <= count,
                rest@ == s.skip(taken as int),
                self@.records == r0 + listed_records(s).take(taken as int),
                self@.truncated == old(self)@.truncated,
                self@.stack == old(self)@.stack,
                self@.recursive == old(self)@.recursive,
                self@.stopped == old(self)@.stopped,
            decreases count - taken,
        {
            let x = rest.remove(0);
            assert(x == s[taken as int]);
            let ghost before = self.records@;
            self.records.push(x.2);
            assert(self@.records =~= records_view(before).push(record_view(x.2)));
            assert(listed_records(s).take(taken as int + 1) =~= listed_records(s).take(taken as int).push(record_view(s[taken as int].2)));
            assert(rest@ =~= s.skip(taken as int + 1));
            taken = taken + 1;
        }
        if over {
            self.truncated = true;
        }
        assert(self@.records == r0 + listed_records(s).take(
            if r0.len() + s.len() > MAX_GALLERY_IMAGES { MAX_GALLERY_IMAGES - r0.len() } else { s.len() as int },
        ));
        assert(keys_sorted(s));
        if self.recursive {
            let ghost st0 = self@.stack;
            let subs = sort_keyed(subdirs);
            let ghost t = subs@;
            let mut k: usize = subs.len();
            let mut subs = subs;
            while k > 0
                invariant
                    k <= t.len(),
                    subs@ == t.take(k as int),
                    self@.stack == st0 + t.skip(k as int).map_values(|x: (u8, Vec<char>, String)| x.2@).reverse(),
                    self@.records.len() <= MAX_GALLERY_IMAGES,
                    self@.records == r0 + listed_records(s).take(
                        if r0.len() + s.len() > MAX_GALLERY_IMAGES { MAX_GALLERY_IMAGES - r0.len() } else { s.len() as int },
                    ),
                    self@.truncated == (old(self)@.truncated || r0.len() + s.len() > MAX_GALLERY_IMAGES),
                    self@.recursive == old(self)@.recursive,
                    self@.stopped == old(self)@.stopped,
                decreases k,
            {
                let ghost sb = subs@;
                let x = subs.pop().unwrap();
                assert(x == sb.last());
                assert(x == t[k - 1]);
                let ghost before = self@.stack;
                self.stack.push(x.2);
                assert(self@.stack =~= before.push(t[k - 1].2@));
                assert(t.skip(k - 1).map_values(|x: (u8, Vec<char>, String)| x.2@).reverse() =~= t.skip(k as int).map_values(|x: (u8, Vec<char>, String)| x.2@).reverse().push(t[k - 1].2@));
                assert(st0 + t.skip(k - 1).map_values(|x: (u8, Vec<char>, String)| x.2@).reverse() =~= (st0 + t.skip(k as int).map_values(|x: (u8, Vec<char>, String)| x.2@).reverse()).push(t[k - 1].2@));
                assert(subs@ =~= t.take(k - 1));
                k = k - 1;
            }
            assert(t.skip(0) =~= t);
            assert(keys_sorted(t));
        }
    }

    /// The result of the scan: what it found, cut short if it stopped at
    /// the limit or left folders unread.
    pub fn finish(self) -> (r: ImageScan)
        ensures
            r.truncated == (self@.truncated || self@.stack.len() > 0),
            records_view(r.records@) == self@.records,
    {
        let truncated = self.truncated || self.stack.len() > 0;
        ImageScan { truncated, records: self.records }
    }
}

/// The last scan made, kept for repeated requests of the same listing.
pub struct ListingCache {
    pub entry: Option<(String, bool, u64, ImageScan)>,
}

impl ListingCache {
    /// An empty cache.
    pub fn new() -> (r: ListingCache)
        ensures
            r.entry is None,
    {
        ListingCache { entry: None }
    }

    /// A copy of the cached scan when it was made for the same folder,
    /// recursion and epoch.
    pub fn lookup(&self, dir: &str, recursive: bool, epoch: u64) -> (r: Option<ImageScan>)
        ensures
            r is Some <==> (self.entry matches Some(e) && e.0@ == dir@ && e.1 == recursive && e.2 == epoch),
            r matches Some(s) ==> (self.entry matches Some(e) && s.truncated == e.3.truncated
                && records_view(s.records@) == records_view(e.3.records@)),
    {
        match &self.entry {
            None => None,
            Some(e) => {
                if chars_eq(chars_of(e.0.as_str()).as_slice(), chars_of(dir).as_slice()) && e.1 == recursive && e.2 == epoch {
                    Some(e.3.duplicate())
                } else {
                    None
                }
            },
        }
    }

    /// Keeps a scan in place of the cached one.
    pub fn store(&mut self, dir: &str, recursive: bool, epoch: u64, scan: &ImageScan)
        ensures
            final(self).entry matches Some(e) && e.0@ == dir@ && e.1 == recursive && e.2 == epoch
                && e.3.truncated == scan.truncated && records_view(e.3.records@) == records_view(scan.records@),
    {
        self.entry = Some((dir.to_owned(), recursive, epoch, scan.duplicate()));
    }
}

proof fn lemma_map_multiset<A, B>(a: Seq<A>, b: Seq<A>, f: spec_fn(A) -> B)
    requires
        a.to_multiset() == b.to_multiset(),
    ensures
        a.map_values(f).to_multiset() == b.map_values(f).to_multiset(),
    decreases a.len(),
{
    a.to_multiset_ensures();
    b.to_multiset_ensures();
    if a.len() == 0 {
        assert(b.len() == 0);
        assert(a.map_values(f) =~= b.map_values(f));
    } else {
        let x = a.last();
        assert(a.to_multiset().count(x) > 0) by {
            assert(a.drop_last().push(x) =~= a);
        }
        assert(b.contains(x));
        let k = choose|k: int| 0 <= k < b.len() && b[k] == x;
        let a0 = a.drop_last();
        let b0 = b.remove(k);
        assert(a0.push(x) =~= a);
        assert(a0.to_multiset() == a.to_multiset().remove(x));
        assert(b0.to_multiset() == b.to_multiset().remove(b[k]));
        lemma_map_multiset(a0, b0, f);
        assert(a.map_values(f) =~= a0.map_values(f).push(f(x)));
        assert(b0.map_values(f) =~= b.map_values(f).remove(k));
        assert(b.map_values(f)[k] == f(x));
        assert(b.map_values(f).remove(k).to_multiset() == b.map_values(f).to_multiset().remove(f(x)));
        assert(b.map_values(f).to_multiset().count(f(x)) > 0) by {
            assert(b.map_values(f).contains(f(x)));
        }
        assert(a0.map_values(f).push(f(x)).to_multiset() == a0.map_values(f).to_multiset().insert(f(x)));
    }
}

} // verus!
