//! Merging tag lists is idempotent: merging the incoming tags into a merged
//! list again, or merging nothing into it, changes nothing.

use vstd::prelude::*;
use crate::filter::{
    dedup_tags, is_tag_sep, lowercase, merged_tags, normalized, tag_pieces, tags_of, trimmed_non_empty,
    without_nul,
};
use crate::laws::law_dedup_tags;
use crate::text::{is_white_space, join_with, trim, trim_end, trim_start};

verus! {

/// A tag as a merged list holds it: not empty, no white space at either
/// end, no separator and no NUL inside.
pub open spec fn clean_tag(t: Seq<char>) -> bool {
    &&& t.len() > 0
    &&& !is_white_space(t[0])
    &&& !is_white_space(t.last())
    &&& forall|i: int| 0 <= i < t.len() ==> !is_tag_sep(#[trigger] t[i]) && t[i] != '\0'
}

/// The text between merged tags.
pub open spec fn comma_space() -> Seq<char> {
    seq![',', ' ']
}

/// No character of `s` is a separator or NUL.
pub open spec fn plain_chars(s: Seq<char>) -> bool {
    forall|i: int| 0 <= i < s.len() ==> !is_tag_sep(#[trigger] s[i]) && s[i] != '\0'
}

proof fn lemma_trim_start_suffix(s: Seq<char>)
    ensures
        exists|k: int| 0 <= k <= s.len() && #[trigger] s.subrange(k, s.len() as int) == trim_start(s),
        trim_start(s).len() > 0 ==> !is_white_space(trim_start(s)[0]),
    decreases s.len(),
{
    if s.len() > 0 && is_white_space(s[0]) {
        lemma_trim_start_suffix(s.drop_first());
        let k = choose|k: int| 0 <= k <= s.drop_first().len()
            && #[trigger] s.drop_first().subrange(k, s.drop_first().len() as int) == trim_start(s.drop_first());
        assert(s.subrange(k + 1, s.len() as int) =~= s.drop_first().subrange(k, s.drop_first().len() as int));
    } else {
        assert(s.subrange(0, s.len() as int) =~= s);
    }
}

proof fn lemma_trim_end_prefix(s: Seq<char>)
    ensures
        exists|k: int| 0 <= k <= s.len() && #[trigger] s.subrange(0, k) == trim_end(s),
        trim_end(s).len() > 0 ==> !is_white_space(trim_end(s).last()),
    decreases s.len(),
{
    if s.len() > 0 && is_white_space(s.last()) {
        lemma_trim_end_prefix(s.drop_last());
        let k = choose|k: int| 0 <= k <= s.drop_last().len() && #[trigger] s.drop_last().subrange(0, k) == trim_end(s.drop_last());
        assert(s.subrange(0, k) =~= s.drop_last().subrange(0, k));
    } else {
        assert(s.subrange(0, s.len() as int) =~= s);
    }
}

/// What `trim` keeps is a piece of `s`, with no white space at its ends.
proof fn lemma_trim_piece(s: Seq<char>)
    ensures
        exists|a: int, b: int| 0 <= a <= b <= s.len() && #[trigger] s.subrange(a, b) == trim(s),
        trim(s).len() > 0 ==> !is_white_space(trim(s)[0]) && !is_white_space(trim(s).last()),
{
    let u = trim_start(s);
    lemma_trim_start_suffix(s);
    lemma_trim_end_prefix(u);
    let a = choose|k: int| 0 <= k <= s.len() && #[trigger] s.subrange(k, s.len() as int) == u;
    let b = choose|k: int| 0 <= k <= u.len() && #[trigger] u.subrange(0, k) == trim_end(u);
    assert(s.subrange(a, a + b) =~= trim(s));
    if trim(s).len() > 0 {
        assert(trim(s)[0] == u[0]);
    }
}

/// Text without white space at its ends is its own trim.
proof fn lemma_trim_id(s: Seq<char>)
    requires
        s.len() > 0,
        !is_white_space(s[0]),
        !is_white_space(s.last()),
    ensures
        trim(s) == s,
{
}

/// A clean tag after one space trims back to itself.
proof fn lemma_trim_space_tag(t: Seq<char>)
    requires
        clean_tag(t),
    ensures
        trim(seq![' '] + t) == t,
{
    let s = seq![' '] + t;
    assert(is_white_space(' '));
    assert(s.drop_first() =~= t);
    assert(s[0] == ' ');
    assert(trim_start(t) == t);
    assert(trim_start(s) == trim_start(s.drop_first()));
    assert(trim_end(t) == t);
}

/// Text without NUL is its own NUL-free form.
proof fn lemma_without_nul_id(s: Seq<char>)
    requires
        forall|i: int| 0 <= i < s.len() ==> s[i] != '\0',
    ensures
        without_nul(s) == s,
    decreases s.len(),
{
    if s.len() > 0 {
        lemma_without_nul_id(s.drop_last());
        assert(s.drop_last().push(s.last()) =~= s);
    }
}

/// The NUL-free form holds no NUL.
proof fn lemma_without_nul_clean(s: Seq<char>)
    ensures
        forall|i: int| 0 <= i < without_nul(s).len() ==> #[trigger] without_nul(s)[i] != '\0',
    decreases s.len(),
{
    if s.len() > 0 {
        lemma_without_nul_clean(s.drop_last());
        let w = without_nul(s.drop_last());
        if s.last() != '\0' {
            assert forall|i: int| 0 <= i < without_nul(s).len() implies #[trigger] without_nul(s)[i] != '\0' by {
                if i < w.len() {
                    assert(without_nul(s)[i] == w[i]);
                }
            }
        }
    }
}

/// The pieces between separators hold no separator, and only characters
/// of the text.
proof fn lemma_pieces_plain(s: Seq<char>)
    requires
        forall|i: int| 0 <= i < s.len() ==> #[trigger] s[i] != '\0',
    ensures
        forall|j: int| 0 <= j < tag_pieces(s).len() ==> plain_chars(#[trigger] tag_pieces(s)[j]),
        tag_pieces(s).len() >= 1,
    decreases s.len(),
{
    if s.len() > 0 {
        let p = s.drop_last();
        lemma_pieces_plain(p);
        let r = tag_pieces(p);
        if !is_tag_sep(s.last()) {
            let n = r.last().push(s.last());
            assert(plain_chars(r[r.len() - 1]));
            assert(s[s.len() - 1] != '\0');
            assert(plain_chars(n)) by {
                assert forall|i: int| 0 <= i < n.len() implies !is_tag_sep(#[trigger] n[i]) && n[i] != '\0' by {
                    if i < n.len() - 1 {
                        assert(n[i] == r.last()[i]);
                    }
                }
            }
            assert forall|j: int| 0 <= j < tag_pieces(s).len() implies plain_chars(#[trigger] tag_pieces(s)[j]) by {
                if j < r.len() - 1 {
                    assert(tag_pieces(s)[j] == r[j]);
                }
            }
        } else {
            assert forall|j: int| 0 <= j < tag_pieces(s).len() implies plain_chars(#[trigger] tag_pieces(s)[j]) by {
                if j < r.len() {
                    assert(tag_pieces(s)[j] == r[j]);
                } else {
                    assert(tag_pieces(s)[j] =~= Seq::<char>::empty());
                }
            }
        }
    }
}

/// Every kept piece is the trim of a piece, and not empty.
proof fn lemma_trimmed_kept(pieces: Seq<Seq<char>>)
    ensures
        forall|k: int| 0 <= k < trimmed_non_empty(pieces).len() ==> exists|j: int|
            0 <= j < pieces.len() && #[trigger] trimmed_non_empty(pieces)[k] == trim(#[trigger] pieces[j])
                && trim(pieces[j]).len() > 0,
    decreases pieces.len(),
{
    if pieces.len() > 0 {
        let p = pieces.drop_last();
        lemma_trimmed_kept(p);
        let t = trimmed_non_empty(pieces);
        assert forall|k: int| 0 <= k < t.len() implies exists|j: int|
            0 <= j < pieces.len() && #[trigger] t[k] == trim(#[trigger] pieces[j]) && trim(pieces[j]).len() > 0 by {
            if k < trimmed_non_empty(p).len() {
                assert(t[k] == trimmed_non_empty(p)[k]);
                let j = choose|j: int| 0 <= j < p.len() && trimmed_non_empty(p)[k] == trim(#[trigger] p[j])
                    && trim(p[j]).len() > 0;
                assert(pieces[j] == p[j]);
            } else {
                assert(t[k] == trim(pieces.last()));
                assert(pieces[pieces.len() - 1] == pieces.last());
            }
        }
    }
}

/// The tags of any text are clean.
proof fn lemma_tags_clean(x: Seq<char>)
    ensures
        forall|k: int| 0 <= k < tags_of(x).len() ==> clean_tag(#[trigger] tags_of(x)[k]),
{
    let w = without_nul(x);
    lemma_without_nul_clean(x);
    let n = normalized(x);
    lemma_trim_piece(w);
    let (a, b) = choose|a: int, b: int| 0 <= a <= b <= w.len() && #[trigger] w.subrange(a, b) == trim(w);
    assert forall|i: int| 0 <= i < n.len() implies #[trigger] n[i] != '\0' by {
        assert(n[i] == w[a + i]);
    }
    lemma_pieces_plain(n);
    let ps = tag_pieces(n);
    lemma_trimmed_kept(ps);
    assert forall|k: int| 0 <= k < tags_of(x).len() implies clean_tag(#[trigger] tags_of(x)[k]) by {
        let t = tags_of(x)[k];
        let j = choose|j: int| 0 <= j < ps.len() && t == trim(#[trigger] ps[j]) && trim(ps[j]).len() > 0;
        lemma_trim_piece(ps[j]);
        let (c, d) = choose|c: int, d: int| 0 <= c <= d <= ps[j].len() && #[trigger] ps[j].subrange(c, d) == trim(ps[j]);
        assert(plain_chars(ps[j]));
        assert forall|i: int| 0 <= i < t.len() implies !is_tag_sep(#[trigger] t[i]) && t[i] != '\0' by {
            assert(t[i] == ps[j][c + i]);
        }
    }
}

/// Appending separator-free text extends the last piece.
proof fn lemma_pieces_append(s: Seq<char>, t: Seq<char>)
    requires
        plain_chars(t),
    ensures
        tag_pieces(s + t) == tag_pieces(s).update(tag_pieces(s).len() - 1, tag_pieces(s).last() + t),
    decreases t.len(),
{
    lemma_pieces_len(s);
    if t.len() == 0 {
        assert(s + t =~= s);
        assert(tag_pieces(s).last() + t =~= tag_pieces(s).last());
        assert(tag_pieces(s).update(tag_pieces(s).len() - 1, tag_pieces(s).last()) =~= tag_pieces(s));
    } else {
        let t0 = t.drop_last();
        assert(plain_chars(t0)) by {
            assert forall|i: int| 0 <= i < t0.len() implies !is_tag_sep(#[trigger] t0[i]) && t0[i] != '\0' by {
                assert(t0[i] == t[i]);
            }
        }
        lemma_pieces_append(s, t0);
        assert((s + t).drop_last() =~= s + t0);
        assert((s + t).last() == t.last());
        assert(!is_tag_sep(t[t.len() - 1]));
        lemma_pieces_len(s + t0);
        let r = tag_pieces(s);
        assert(tag_pieces(s + t) =~= r.update(r.len() - 1, r.last() + t)) by {
            assert((r.last() + t0).push(t.last()) =~= r.last() + t);
        }
    }
}

proof fn lemma_pieces_len(s: Seq<char>)
    ensures
        tag_pieces(s).len() >= 1,
    decreases s.len(),
{
    if s.len() > 0 {
        lemma_pieces_len(s.drop_last());
    }
}

/// The pieces of a list joined with `, `: the first tag, then each later
/// one after a space.
pub open spec fn joined_pieces(d: Seq<Seq<char>>) -> Seq<Seq<char>> {
    Seq::new(d.len(), |i: int| if i == 0 { d[0] } else { seq![' '] + d[i] })
}

proof fn lemma_join_pieces(d: Seq<Seq<char>>)
    requires
        d.len() > 0,
        forall|k: int| 0 <= k < d.len() ==> clean_tag(#[trigger] d[k]),
    ensures
        tag_pieces(join_with(d, comma_space())) == joined_pieces(d),
    decreases d.len(),
{
    if d.len() == 1 {
        assert(join_with(d, comma_space()) == d[0]);
        assert(plain_chars(d[0]));
        lemma_pieces_append(Seq::empty(), d[0]);
        assert(Seq::<char>::empty() + d[0] =~= d[0]);
        assert(tag_pieces(Seq::<char>::empty()) =~= seq![Seq::<char>::empty()]);
        assert(Seq::<char>::empty() + d[0] =~= d[0]);
        assert(tag_pieces(d[0]) =~= joined_pieces(d));
    } else {
        let p = d.drop_last();
        assert forall|k: int| 0 <= k < p.len() implies clean_tag(#[trigger] p[k]) by {
            assert(p[k] == d[k]);
        }
        lemma_join_pieces(p);
        let jp = join_with(p, comma_space());
        let last = d.last();
        assert(clean_tag(d[d.len() - 1]));
        let t = seq![' '] + last;
        assert(plain_chars(t)) by {
            assert forall|i: int| 0 <= i < t.len() implies !is_tag_sep(#[trigger] t[i]) && t[i] != '\0' by {
                if i > 0 {
                    assert(t[i] == last[i - 1]);
                }
            }
        }
        assert(join_with(d, comma_space()) =~= (jp + seq![',']) + t);
        assert((jp + seq![',']).drop_last() =~= jp);
        assert(is_tag_sep(','));
        assert(tag_pieces(jp + seq![',']) == tag_pieces(jp).push(Seq::<char>::empty()));
        lemma_pieces_append(jp + seq![','], t);
        let r = tag_pieces(jp).push(Seq::<char>::empty());
        assert(Seq::<char>::empty() + t =~= t);
        assert(r.update(r.len() - 1, r.last() + t) =~= joined_pieces(d)) by {
            assert(joined_pieces(p).len() == p.len());
        }
    }
}

proof fn lemma_trimmed_joined(d: Seq<Seq<char>>)
    requires
        forall|k: int| 0 <= k < d.len() ==> clean_tag(#[trigger] d[k]),
    ensures
        trimmed_non_empty(joined_pieces(d)) == d,
    decreases d.len(),
{
    if d.len() > 0 {
        let p = d.drop_last();
        assert forall|k: int| 0 <= k < p.len() implies clean_tag(#[trigger] p[k]) by {
            assert(p[k] == d[k]);
        }
        lemma_trimmed_joined(p);
        assert(joined_pieces(d).drop_last() =~= joined_pieces(p));
        assert(clean_tag(d[d.len() - 1]));
        if d.len() == 1 {
            lemma_trim_id(d[0]);
            assert(joined_pieces(d).last() == d[0]);
        } else {
            lemma_trim_space_tag(d.last());
            assert(joined_pieces(d).last() == seq![' '] + d.last());
        }
        assert(p.push(d.last()) =~= d);
    }
}

/// A list joined with `, ` begins with its first tag's first character and
/// ends with its last tag's last character, and holds no NUL.
proof fn lemma_join_ends(d: Seq<Seq<char>>)
    requires
        d.len() > 0,
        forall|k: int| 0 <= k < d.len() ==> clean_tag(#[trigger] d[k]),
    ensures
        join_with(d, comma_space()).len() > 0,
        join_with(d, comma_space())[0] == d[0][0],
        join_with(d, comma_space()).last() == d.last().last(),
        forall|i: int| 0 <= i < join_with(d, comma_space()).len() ==> #[trigger] join_with(d, comma_space())[i] != '\0',
    decreases d.len(),
{
    assert(clean_tag(d[0]));
    assert(clean_tag(d[d.len() - 1]));
    if d.len() > 1 {
        let p = d.drop_last();
        assert forall|k: int| 0 <= k < p.len() implies clean_tag(#[trigger] p[k]) by {
            assert(p[k] == d[k]);
        }
        lemma_join_ends(p);
        let jp = join_with(p, comma_space());
        let j = join_with(d, comma_space());
        assert(j == jp + comma_space() + d.last());
        assert(j[0] == jp[0]);
        assert forall|i: int| 0 <= i < j.len() implies #[trigger] j[i] != '\0' by {
            if i < jp.len() {
                assert(j[i] == jp[i]);
            } else if i >= jp.len() + 2 {
                assert(j[i] == d.last()[i - jp.len() - 2]);
            }
        }
    }
}

/// The tags of a list of clean tags joined with `, ` are that list.
proof fn lemma_tags_of_join(d: Seq<Seq<char>>)
    requires
        forall|k: int| 0 <= k < d.len() ==> clean_tag(#[trigger] d[k]),
    ensures
        tags_of(join_with(d, comma_space())) == d,
{
    let j = join_with(d, comma_space());
    if d.len() == 0 {
        assert(j =~= Seq::<char>::empty());
        lemma_no_tags();
        assert(d =~= Seq::<Seq<char>>::empty());
    } else {
        lemma_join_ends(d);
        lemma_without_nul_id(j);
        assert(clean_tag(d[0]));
        assert(clean_tag(d[d.len() - 1]));
        lemma_trim_id(j);
        lemma_join_pieces(d);
        lemma_trimmed_joined(d);
    }
}

/// Tags whose lower-case forms differ pairwise are their own dedup.
/// Text without tags has none.
proof fn lemma_no_tags()
    ensures
        tags_of(Seq::<char>::empty()) == Seq::<Seq<char>>::empty(),
{
    let e = Seq::<char>::empty();
    assert(without_nul(e) =~= e);
    assert(trim_start(e) == e);
    assert(trim_end(e) == e);
    assert(normalized(e) =~= e);
    assert(tag_pieces(e) =~= seq![e]);
    let p = seq![e];
    assert(p.last() == e);
    assert(trim(e) == e);
    assert(p.drop_last() =~= Seq::<Seq<char>>::empty());
    assert(trimmed_non_empty(Seq::<Seq<char>>::empty()) == Seq::<Seq<char>>::empty());
    assert(trimmed_non_empty(p) == trimmed_non_empty(p.drop_last()));
}

proof fn lemma_dedup_distinct(t: Seq<Seq<char>>)
    requires
        forall|a: int, b: int| 0 <= a < b < t.len() ==> lowercase(#[trigger] t[a]) != lowercase(#[trigger] t[b]),
    ensures
        dedup_tags(t) == t,
    decreases t.len(),
{
    if t.len() > 0 {
        let p = t.drop_last();
        assert forall|a: int, b: int| 0 <= a < b < p.len() implies lowercase(#[trigger] p[a]) != lowercase(#[trigger] p[b]) by {
            assert(p[a] == t[a] && p[b] == t[b]);
        }
        lemma_dedup_distinct(p);
        assert(!exists|i: int| 0 <= i < t.len() - 1 && lowercase(#[trigger] t[i]) == lowercase(t.last())) by {
            if exists|i: int| 0 <= i < t.len() - 1 && lowercase(#[trigger] t[i]) == lowercase(t.last()) {
                let i = choose|i: int| 0 <= i < t.len() - 1 && lowercase(#[trigger] t[i]) == lowercase(t.last());
                assert(lowercase(t[i]) != lowercase(t[t.len() - 1]));
            }
        }
        assert(p.push(t.last()) =~= t);
    }
}

/// Some tag of `d` has the lower-case form of `x`.
pub open spec fn matched_in(d: Seq<Seq<char>>, x: Seq<char>) -> bool {
    exists|k: int| 0 <= k < d.len() && lowercase(#[trigger] d[k]) == lowercase(x)
}

/// Appending tags that each match one of `d` (ignoring case) adds nothing.
proof fn lemma_dedup_covered(d: Seq<Seq<char>>, e: Seq<Seq<char>>)
    requires
        forall|j: int| 0 <= j < e.len() ==> matched_in(d, #[trigger] e[j]),
    ensures
        dedup_tags(d + e) == dedup_tags(d),
    decreases e.len(),
{
    if e.len() == 0 {
        assert(d + e =~= d);
    } else {
        let e0 = e.drop_last();
        assert forall|j: int| 0 <= j < e0.len() implies matched_in(d, #[trigger] e0[j]) by {
            assert(e0[j] == e[j]);
        }
        lemma_dedup_covered(d, e0);
        let s = d + e;
        assert(s.drop_last() =~= d + e0);
        assert(s.last() == e[e.len() - 1]);
        assert(matched_in(d, e[e.len() - 1]));
        let k = choose|k: int| 0 <= k < d.len() && lowercase(#[trigger] d[k]) == lowercase(e[e.len() - 1]);
        assert(s[k] == d[k]);
        assert(0 <= k < s.len() - 1 && lowercase(s[k]) == lowercase(s.last()));
    }
}

/// Merging tags is idempotent: merging the same incoming tags into a merged
/// list again gives that list back, and so does merging nothing into it.
pub proof fn law_merge_idempotent(existing: Seq<char>, incoming: Seq<char>)
    ensures
        merged_tags(merged_tags(existing, incoming), incoming) == merged_tags(existing, incoming),
        merged_tags(merged_tags(existing, incoming), Seq::empty()) == merged_tags(existing, incoming),
{
    let all = tags_of(existing) + tags_of(incoming);
    let d = dedup_tags(all);
    law_dedup_tags(all);
    lemma_tags_clean(existing);
    lemma_tags_clean(incoming);
    assert forall|k: int| 0 <= k < d.len() implies clean_tag(#[trigger] d[k]) by {
        let j = choose|j: int| 0 <= j < all.len() && all[j] == d[k];
        if j < tags_of(existing).len() {
            assert(all[j] == tags_of(existing)[j]);
        } else {
            assert(all[j] == tags_of(incoming)[j - tags_of(existing).len()]);
        }
    }
    lemma_tags_of_join(d);
    lemma_dedup_distinct(d);
    let e = tags_of(incoming);
    assert forall|j: int| 0 <= j < e.len() implies matched_in(d, #[trigger] e[j]) by {
        let i = tags_of(existing).len() + j;
        assert(all[i] == e[j]);
        let k = choose|k: int| 0 <= k < d.len() && lowercase(#[trigger] d[k]) == lowercase(#[trigger] all[i]);
        assert(lowercase(d[k]) == lowercase(e[j]));
    }
    lemma_dedup_covered(d, e);
    let z = tags_of(Seq::<char>::empty());
    lemma_no_tags();
    assert(d + z =~= d);
}

} // verus!
