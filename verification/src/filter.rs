//! Star and tag filters over image metadata, and merging of tag lists.

use vstd::prelude::*;
use crate::text::{
    append_chars, chars_eq, chars_of, join_chars, join_with, string_from_chars, sub_chars, trim,
    trim_chars,
};

verus! {

/// `str::to_lowercase` of a string (full Unicode lower-casing).
pub uninterp spec fn lowercase(s: Seq<char>) -> Seq<char>;

/// `str::to_lowercase`: the Unicode lower-case form of the string.
#[verifier::external_body]
pub(crate) fn to_lowercase(s: &str) -> (r: String)
    ensures
        r@ == lowercase(s@),
{
    s.to_lowercase()
}

/// `s` without its NUL characters.
pub open spec fn without_nul(s: Seq<char>) -> Seq<char>
    decreases s.len(),
{
    if s.len() == 0 {
        s
    } else if s.last() == '\0' {
        without_nul(s.drop_last())
    } else {
        without_nul(s.drop_last()).push(s.last())
    }
}

/// Tag text as stored: NUL characters dropped, white space trimmed.
pub open spec fn normalized(s: Seq<char>) -> Seq<char> {
    trim(without_nul(s))
}

/// Characters that separate tags: `,`, `;`, full-width comma, ideographic comma.
pub open spec fn is_tag_sep(c: char) -> bool {
    c == ',' || c == ';' || c == '，' || c == '、'
}

/// Pieces of `s` between tag separators (as `str::split` gives them).
pub open spec fn tag_pieces(s: Seq<char>) -> Seq<Seq<char>>
    decreases s.len(),
{
    if s.len() == 0 {
        seq![Seq::<char>::empty()]
    } else {
        let r = tag_pieces(s.drop_last());
        if is_tag_sep(s.last()) {
            r.push(Seq::<char>::empty())
        } else {
            r.update(r.len() - 1, r.last().push(s.last()))
        }
    }
}

/// The pieces trimmed, empty ones dropped.
pub open spec fn trimmed_non_empty(pieces: Seq<Seq<char>>) -> Seq<Seq<char>>
    decreases pieces.len(),
{
    if pieces.len() == 0 {
        pieces
    } else if trim(pieces.last()).len() > 0 {
        trimmed_non_empty(pieces.drop_last()).push(trim(pieces.last()))
    } else {
        trimmed_non_empty(pieces.drop_last())
    }
}

/// The tags of a tag text: the trimmed non-empty pieces of its normalized form.
pub open spec fn tags_of(s: Seq<char>) -> Seq<Seq<char>> {
    trimmed_non_empty(tag_pieces(normalized(s)))
}

/// Tags with a later tag dropped when an earlier one has the same lower-case form.
pub open spec fn dedup_tags(t: Seq<Seq<char>>) -> Seq<Seq<char>>
    decreases t.len(),
{
    if t.len() == 0 {
        t
    } else if exists|i: int| 0 <= i < t.len() - 1 && lowercase(#[trigger] t[i]) == lowercase(t.last()) {
        dedup_tags(t.drop_last())
    } else {
        dedup_tags(t.drop_last()).push(t.last())
    }
}

/// The existing tags followed by the incoming ones, each tag once (ignoring
/// case, the first spelling kept), joined with `, `.
pub open spec fn merged_tags(existing: Seq<char>, incoming: Seq<char>) -> Seq<char> {
    join_with(dedup_tags(tags_of(existing) + tags_of(incoming)), seq![',', ' '])
}

/// `p` occurs in `s` as a contiguous piece.
pub open spec fn contains_seq(s: Seq<char>, p: Seq<char>) -> bool {
    exists|i: int| 0 <= i && i + p.len() <= s.len() && #[trigger] s.subrange(i, i + p.len()) == p
}

/// The tags contain the query: an empty query matches anything; otherwise
/// the normalized text or one of its tags holds the query.
pub open spec fn tags_contain_spec(tags: Seq<char>, query: Seq<char>) -> bool {
    let q = normalized(query);
    q.len() == 0 || contains_seq(normalized(tags), q) || exists|i: int|
        0 <= i < tags_of(tags).len() && (#[trigger] tags_of(tags)[i] == q || contains_seq(
            tags_of(tags)[i],
            q,
        ))
}

/// A tag filter: `eq` asks for the whole text or one tag to equal the query,
/// `excludes` for the query not to be contained, anything else for it to be
/// contained. An empty query matches anything.
pub open spec fn tags_match_spec(tags: Seq<char>, mode: Seq<char>, query: Seq<char>) -> bool {
    let q = normalized(query);
    if q.len() == 0 {
        true
    } else if mode == "eq"@ {
        normalized(tags) == q || tags_of(tags).contains(q)
    } else if mode == "excludes"@ {
        !tags_contain_spec(tags, q)
    } else {
        tags_contain_spec(tags, q)
    }
}

/// A star filter: `any` or empty matches anything; `lt`, `le`, `ge`, `gt`
/// compare; anything else asks for equality.
pub open spec fn star_match_spec(rating: u8, op: Seq<char>, val: u8) -> bool {
    if op == "any"@ || op.len() == 0 {
        true
    } else if op == "lt"@ {
        rating < val
    } else if op == "le"@ {
        rating <= val
    } else if op == "ge"@ {
        rating >= val
    } else if op == "gt"@ {
        rating > val
    } else {
        rating == val
    }
}

fn without_nul_chars(s: &[char]) -> (r: Vec<char>)
    ensures
        r@ == without_nul(s@),
{
    let mut r: Vec<char> = Vec::new();
    let mut i: usize = 0;
    assert(s@.take(0) =~= Seq::<char>::empty());
    while i < s.len()
        invariant
            i <= s.len(),
            r@ == without_nul(s@.take(i as int)),
        decreases s.len() - i,
    {
        assert(s@.take(i + 1).drop_last() =~= s@.take(i as int));
        if s[i] != '\0' {
            r.push(s[i]);
        }
        i = i + 1;
    }
    assert(s@.take(i as int) =~= s@);
    r
}

fn normalize_chars(s: &[char]) -> (r: Vec<char>)
    ensures
        r@ == normalized(s@),
{
    let w = without_nul_chars(s);
    trim_chars(w.as_slice())
}

/// Tag text with NUL characters removed and white space trimmed.
pub fn normalize_tag_text(s: &str) -> (r: String)
    ensures
        r@ == normalized(s@),
{
    let v = chars_of(s);
    let n = normalize_chars(v.as_slice());
    string_from_chars(n.as_slice())
}

proof fn lemma_tag_pieces_nonempty(s: Seq<char>)
    ensures
        tag_pieces(s).len() >= 1,
    decreases s.len(),
{
    if s.len() > 0 {
        lemma_tag_pieces_nonempty(s.drop_last());
    }
}

fn tag_tokens_of_normalized(s: &[char]) -> (r: Vec<Vec<char>>)
    ensures
        r@.map_values(|t: Vec<char>| t@) == trimmed_non_empty(tag_pieces(s@)),
{
    let mut out: Vec<Vec<char>> = Vec::new();
    let mut cur: Vec<char> = Vec::new();
    let mut i: usize = 0;
    let ghost done: Seq<Seq<char>> = Seq::empty();
    assert(s@.take(0) =~= Seq::<char>::empty());
    while i < s.len()
        invariant
            i <= s.len(),
            done + seq![cur@] == tag_pieces(s@.take(i as int)),
            out@.map_values(|t: Vec<char>| t@) == trimmed_non_empty(done),
        decreases s.len() - i,
    {
        proof { lemma_tag_pieces_nonempty(s@.take(i as int)); }
        assert(s@.take(i + 1).drop_last() =~= s@.take(i as int));
        let c = s[i];
        if c == ',' || c == ';' || c == '，' || c == '、' {
            let t = trim_chars(cur.as_slice());
            let ghost old_out = out@.map_values(|t: Vec<char>| t@);
            proof {
                assert((done.push(cur@)).drop_last() =~= done);
            }
            if t.len() > 0 {
                out.push(t);
                assert(out@.map_values(|t: Vec<char>| t@) =~= old_out.push(trim(cur@)));
            }
            proof {
                done = done.push(cur@);
            }
            cur = Vec::new();
            assert(done + seq![cur@] =~= tag_pieces(s@.take(i as int)).push(Seq::<char>::empty()));
        } else {
            let ghost prev = tag_pieces(s@.take(i as int));
            cur.push(c);
            assert(done + seq![cur@] =~= prev.update(prev.len() - 1, prev.last().push(c)));
        }
        i = i + 1;
    }
    assert(s@.take(i as int) =~= s@);
    let t = trim_chars(cur.as_slice());
    let ghost old_out = out@.map_values(|t: Vec<char>| t@);
    proof {
        assert((done.push(cur@)).drop_last() =~= done);
        assert(done + seq![cur@] =~= done.push(cur@));
    }
    if t.len() > 0 {
        out.push(t);
        assert(out@.map_values(|t: Vec<char>| t@) =~= old_out.push(trim(cur@)));
    }
    out
}

fn tag_tokens(s: &[char]) -> (r: Vec<Vec<char>>)
    ensures
        r@.map_values(|t: Vec<char>| t@) == tags_of(s@),
{
    let n = normalize_chars(s);
    tag_tokens_of_normalized(n.as_slice())
}

fn lowercase_chars(t: &[char]) -> (r: Vec<char>)
    ensures
        r@ == lowercase(t@),
{
    let s = string_from_chars(t);
    let l = to_lowercase(s.as_str());
    chars_of(l.as_str())
}

fn seq_contains_chars(list: &Vec<Vec<char>>, x: &[char]) -> (r: bool)
    ensures
        r == exists|j: int| 0 <= j < list@.len() && (#[trigger] list@[j])@ == x@,
{
    let mut j: usize = 0;
    while j < list.len()
        invariant
            j <= list.len(),
            forall|k: int| 0 <= k < j ==> (#[trigger] list@[k])@ != x@,
        decreases list.len() - j,
    {
        if chars_eq(list[j].as_slice(), x) {
            return true;
        }
        j = j + 1;
    }
    false
}

/// Appends the incoming tags to the existing ones, dropping repeats (ignoring
/// case), and joins them with `, `.
pub fn merge_tag_lists(existing: &str, incoming: &str) -> (r: String)
    ensures
        r@ == merged_tags(existing@, incoming@),
{
    let mut all = tag_tokens(chars_of(existing).as_slice());
    let more = tag_tokens(chars_of(incoming).as_slice());
    let ghost a0 = all@.map_values(|t: Vec<char>| t@);
    let ghost m0 = more@.map_values(|t: Vec<char>| t@);
    let mut k: usize = 0;
    while k < more.len()
        invariant
            k <= more.len(),
            m0 == more@.map_values(|t: Vec<char>| t@),
            all@.map_values(|t: Vec<char>| t@) == a0 + m0.take(k as int),
        decreases more.len() - k,
    {
        let ghost before = all@.map_values(|t: Vec<char>| t@);
        all.push(more[k].clone());
        assert(m0.take(k + 1) =~= m0.take(k as int).push(m0[k as int]));
        assert(all@.map_values(|t: Vec<char>| t@) =~= before.push(m0[k as int]));
        k = k + 1;
    }
    assert(m0.take(k as int) =~= m0);
    let ghost t = all@.map_values(|t: Vec<char>| t@);
    let mut out: Vec<Vec<char>> = Vec::new();
    let mut seen: Vec<Vec<char>> = Vec::new();
    let mut i: usize = 0;
    assert(t.take(0) =~= Seq::<Seq<char>>::empty());
    while i < all.len()
        invariant
            i <= all.len(),
            t == all@.map_values(|t: Vec<char>| t@),
            out@.map_values(|t: Vec<char>| t@) == dedup_tags(t.take(i as int)),
            forall|j: int| 0 <= j < i ==> exists|m: int| 0 <= m < seen@.len() && (#[trigger] seen@[m])@ == lowercase(#[trigger] t[j]),
            forall|m: int| 0 <= m < seen@.len() ==> exists|j: int| 0 <= j < i && (#[trigger] seen@[m])@ == lowercase(#[trigger] t[j]),
        decreases all.len() - i,
    {
        let key = lowercase_chars(all[i].as_slice());
        let ghost ti = t.take(i + 1);
        assert(ti.drop_last() =~= t.take(i as int));
        assert(ti.last() == t[i as int]);
        if seq_contains_chars(&seen, key.as_slice()) {
            assert(exists|j: int| 0 <= j < ti.len() - 1 && lowercase(#[trigger] ti[j]) == lowercase(ti.last())) by {
                let m = choose|m: int| 0 <= m < seen@.len() && (#[trigger] seen@[m])@ == key@;
                let j = choose|j: int| 0 <= j < i && (#[trigger] seen@[m])@ == lowercase(#[trigger] t[j]);
                assert(ti[j] == t[j]);
            }
        } else {
            assert(!exists|j: int| 0 <= j < ti.len() - 1 && lowercase(#[trigger] ti[j]) == lowercase(ti.last())) by {
                if exists|j: int| 0 <= j < ti.len() - 1 && lowercase(#[trigger] ti[j]) == lowercase(ti.last()) {
                    let j = choose|j: int| 0 <= j < ti.len() - 1 && lowercase(#[trigger] ti[j]) == lowercase(ti.last());
                    assert(ti[j] == t[j]);
                    let m = choose|m: int| 0 <= m < seen@.len() && (#[trigger] seen@[m])@ == lowercase(#[trigger] t[j]);
                }
            }
            let ghost before = out@.map_values(|t: Vec<char>| t@);
            out.push(all[i].clone());
            assert(out@.map_values(|t: Vec<char>| t@) =~= before.push(t[i as int]));
            let ghost sb = seen@;
            seen.push(key);
            assert forall|j: int| 0 <= j < i + 1 implies exists|m: int| 0 <= m < seen@.len() && (#[trigger] seen@[m])@ == lowercase(#[trigger] t[j]) by {
                if j < i {
                    let m = choose|m: int| 0 <= m < sb.len() && (#[trigger] sb[m])@ == lowercase(#[trigger] t[j]);
                    assert(seen@[m] == sb[m]);
                } else {
                    assert(seen@[sb.len() as int]@ == lowercase(t[j]));
                }
            }
            assert forall|m: int| 0 <= m < seen@.len() implies exists|j: int| 0 <= j < i + 1 && (#[trigger] seen@[m])@ == lowercase(#[trigger] t[j]) by {
                if m < sb.len() {
                    assert(seen@[m] == sb[m]);
                    let j = choose|j: int| 0 <= j < i && (#[trigger] sb[m])@ == lowercase(#[trigger] t[j]);
                } else {
                    assert(seen@[m]@ == lowercase(t[i as int]));
                }
            }
        }
        i = i + 1;
    }
    assert(t.take(i as int) =~= t);
    assert(t =~= tags_of(existing@) + tags_of(incoming@));
    let sep = [',', ' '];
    assert(sep@ =~= seq![',', ' ']);
    let j = join_chars(&out, &sep);
    string_from_chars(j.as_slice())
}

fn contains_seq_chars(s: &[char], p: &[char]) -> (r: bool)
    ensures
        r == contains_seq(s@, p@),
{
    if p.len() > s.len() {
        return false;
    }
    let last = s.len() - p.len();
    let mut i: usize = 0;
    while i <= last
        invariant
            p.len() <= s.len(),
            last == s.len() - p.len(),
            i <= last + 1,
            forall|k: int| 0 <= k < i ==> #[trigger] s@.subrange(k, k + p@.len()) != p@,
        decreases last + 1 - i,
    {
        let piece = sub_chars(s, i, i + p.len());
        if chars_eq(piece.as_slice(), p) {
            return true;
        }
        if i == last {
            return false;
        }
        i = i + 1;
    }
    false
}

fn tags_contain_chars(tags: &[char], query: &[char]) -> (r: bool)
    ensures
        r == tags_contain_spec(tags@, query@),
{
    let q = normalize_chars(query);
    if q.len() == 0 {
        return true;
    }
    let n = normalize_chars(tags);
    if contains_seq_chars(n.as_slice(), q.as_slice()) {
        return true;
    }
    let toks = tag_tokens(tags);
    let ghost tv = toks@.map_values(|t: Vec<char>| t@);
    let mut i: usize = 0;
    while i < toks.len()
        invariant
            i <= toks.len(),
            tv == toks@.map_values(|t: Vec<char>| t@),
            tv == tags_of(tags@),
            q@ == normalized(query@),
            forall|k: int| 0 <= k < i ==> !(#[trigger] tv[k] == q@ || contains_seq(tv[k], q@)),
        decreases toks.len() - i,
    {
        assert(tv[i as int] == toks@[i as int]@);
        if chars_eq(toks[i].as_slice(), q.as_slice()) || contains_seq_chars(toks[i].as_slice(), q.as_slice()) {
            return true;
        }
        i = i + 1;
    }
    false
}

/// The tags contain the query (see [`tags_contain_spec`]).
pub fn tags_contain(tags: &str, query: &str) -> (r: bool)
    ensures
        r == tags_contain_spec(tags@, query@),
{
    tags_contain_chars(chars_of(tags).as_slice(), chars_of(query).as_slice())
}

fn tags_match_chars(tags: &[char], mode: &[char], query: &[char]) -> (r: bool)
    ensures
        r == tags_match_spec(tags@, mode@, query@),
{
    let q = normalize_chars(query);
    if q.len() == 0 {
        return true;
    }
    let n = normalize_chars(tags);
    let toks = tag_tokens(tags);
    if chars_eq(mode, chars_of("eq").as_slice()) {
        if chars_eq(n.as_slice(), q.as_slice()) {
            return true;
        }
        let ghost tv = toks@.map_values(|t: Vec<char>| t@);
        let mut i: usize = 0;
        while i < toks.len()
            invariant
                i <= toks.len(),
                tv == toks@.map_values(|t: Vec<char>| t@),
                tv == tags_of(tags@),
                q@ == normalized(query@),
                q@.len() > 0,
                mode@ == "eq"@,
                forall|k: int| 0 <= k < i ==> #[trigger] tv[k] != q@,
            decreases toks.len() - i,
        {
            assert(tv[i as int] == toks@[i as int]@);
            if chars_eq(toks[i].as_slice(), q.as_slice()) {
                assert(tv.contains(q@));
                return true;
            }
            i = i + 1;
        }
        assert(!tv.contains(q@)) by {
            if tv.contains(q@) {
                let k = choose|k: int| 0 <= k < tv.len() && tv[k] == q@;
                assert(tv[k] != q@);
            }
        }
        return false;
    }
    if chars_eq(mode, chars_of("excludes").as_slice()) {
        return !tags_contain_chars(tags, q.as_slice());
    }
    tags_contain_chars(tags, q.as_slice())
}

/// Whether the tags pass a tag filter (see [`tags_match_spec`]).
pub fn tags_match(tags: &str, mode: &str, query: &str) -> (r: bool)
    ensures
        r == tags_match_spec(tags@, mode@, query@),
{
    tags_match_chars(chars_of(tags).as_slice(), chars_of(mode).as_slice(), chars_of(query).as_slice())
}

/// Whether a rating passes a star filter (see [`star_match_spec`]).
pub fn star_match(rating: u8, op: &str, val: u8) -> (r: bool)
    ensures
        r == star_match_spec(rating, op@, val),
{
    let o = chars_of(op);
    if chars_eq(o.as_slice(), chars_of("any").as_slice()) || o.len() == 0 {
        true
    } else if chars_eq(o.as_slice(), chars_of("lt").as_slice()) {
        rating < val
    } else if chars_eq(o.as_slice(), chars_of("le").as_slice()) {
        rating <= val
    } else if chars_eq(o.as_slice(), chars_of("ge").as_slice()) {
        rating >= val
    } else if chars_eq(o.as_slice(), chars_of("gt").as_slice()) {
        rating > val
    } else {
        rating == val
    }
}

/// One indexed image: its relative path, star rating and tag text.
pub struct MetaRow {
    pub path: String,
    pub rating: i64,
    pub tags: String,
}

/// A stored rating clamped to 0..=5.
pub open spec fn clamped_rating(r: i64) -> u8 {
    if r < 0 {
        0
    } else if r > 5 {
        5
    } else {
        r as u8
    }
}

/// A row passes the filter (or, for the complement, fails it).
pub open spec fn row_selected(
    row: MetaRow,
    star_op: Seq<char>,
    star_val: u8,
    tag_mode: Seq<char>,
    tag_query: Seq<char>,
    complement: bool,
) -> bool {
    let val = if star_val > 5 { 5u8 } else { star_val };
    let matched = star_match_spec(clamped_rating(row.rating), star_op, val) && tags_match_spec(
        row.tags@,
        tag_mode,
        normalized(tag_query),
    );
    if complement { !matched } else { matched }
}

/// Paths of the selected rows, in row order.
pub open spec fn selected_paths(
    rows: Seq<MetaRow>,
    star_op: Seq<char>,
    star_val: u8,
    tag_mode: Seq<char>,
    tag_query: Seq<char>,
    complement: bool,
) -> Seq<Seq<char>>
    decreases rows.len(),
{
    if rows.len() == 0 {
        Seq::empty()
    } else {
        let before = selected_paths(rows.drop_last(), star_op, star_val, tag_mode, tag_query, complement);
        if row_selected(rows.last(), star_op, star_val, tag_mode, tag_query, complement) {
            before.push(rows.last().path@)
        } else {
            before
        }
    }
}

/// The paths of the rows that pass the star and tag filters (the star value
/// capped at 5, ratings clamped to 0..=5), or that fail them when
/// `complement` is set, in row order.
pub fn select_rows(
    rows: &Vec<MetaRow>,
    star_op: &str,
    star_val: u8,
    tag_mode: &str,
    tag_query: &str,
    complement: bool,
) -> (r: Vec<String>)
    ensures
        r@.map_values(|s: String| s@) == selected_paths(rows@, star_op@, star_val, tag_mode@, tag_query@, complement),
{
    let query = normalize_tag_text(tag_query);
    let val: u8 = if star_val > 5 { 5 } else { star_val };
    let mut out: Vec<String> = Vec::new();
    let mut i: usize = 0;
    assert(rows@.take(0) =~= Seq::<MetaRow>::empty());
    while i < rows.len()
        invariant
            i <= rows.len(),
            query@ == normalized(tag_query@),
            val == (if star_val > 5 { 5u8 } else { star_val }),
            out@.map_values(|s: String| s@) == selected_paths(rows@.take(i as int), star_op@, star_val, tag_mode@, tag_query@, complement),
        decreases rows.len() - i,
    {
        assert(rows@.take(i + 1).drop_last() =~= rows@.take(i as int));
        let row = &rows[i];
        let rating: u8 = if row.rating < 0 { 0 } else if row.rating > 5 { 5 } else { row.rating as u8 };
        let matched = star_match(rating, star_op, val) && tags_match(row.tags.as_str(), tag_mode, query.as_str());
        let keep = if complement { !matched } else { matched };
        if keep {
            let ghost before = out@.map_values(|s: String| s@);
            out.push(row.path.clone());
            assert(out@.map_values(|s: String| s@) =~= before.push(rows@[i as int].path@));
        }
        i = i + 1;
    }
    assert(rows@.take(i as int) =~= rows@);
    out
}

} // verus!
