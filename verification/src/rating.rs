//! Star ratings and tags as they are kept in image metadata: reading them
//! from the raw tag values, and the values written back.

use vstd::prelude::*;
use vstd::utf8::{decode_utf8, valid_utf8};
use crate::filter::{merge_tag_lists, merged_tags, normalize_tag_text, normalized};
use crate::text::chars_of;

verus! {

/// `String::from_utf8_lossy`: the bytes decoded, invalid sequences replaced.
pub uninterp spec fn utf8_lossy(b: Seq<u8>) -> Seq<char>;

/// A high (leading) surrogate code unit.
pub open spec fn is_high_surrogate(x: u16) -> bool {
    0xD800 <= x < 0xDC00
}

/// A low (trailing) surrogate code unit.
pub open spec fn is_low_surrogate(x: u16) -> bool {
    0xDC00 <= x < 0xE000
}

/// The character that a surrogate pair encodes.
pub open spec fn pair_char(hi: u16, lo: u16) -> char {
    (0x10000 + (hi - 0xD800) * 0x400 + (lo - 0xDC00)) as char
}

/// UTF-16 decoded from the front, as `char::decode_utf16` reads it, each
/// unpaired surrogate replaced by U+FFFD (what `String::from_utf16_lossy`
/// gives).
pub open spec fn utf16_lossy(u: Seq<u16>) -> Seq<char>
    decreases u.len(),
{
    if u.len() == 0 {
        Seq::empty()
    } else if is_high_surrogate(u[0]) && u.len() >= 2 && is_low_surrogate(u[1]) {
        seq![pair_char(u[0], u[1])] + utf16_lossy(u.subrange(2, u.len() as int))
    } else if is_high_surrogate(u[0]) || is_low_surrogate(u[0]) {
        seq!['\u{FFFD}'] + utf16_lossy(u.drop_first())
    } else {
        seq![(u[0] as u32) as char] + utf16_lossy(u.drop_first())
    }
}

/// `String::from_utf8_lossy`: valid UTF-8 is decoded unchanged; what the
/// replacement of invalid sequences gives is named [`utf8_lossy`].
#[verifier::external_body]
pub(crate) fn from_utf8_lossy(b: &[u8]) -> (r: String)
    ensures
        r@ == utf8_lossy(b@),
        valid_utf8(b@) ==> r@ == decode_utf8(b@),
{
    String::from_utf8_lossy(b).into_owned()
}

/// `String::from_utf16_lossy`: the code units decoded, each unpaired
/// surrogate replaced by U+FFFD (see [`utf16_lossy`]).
#[verifier::external_body]
fn from_utf16_lossy(u: &[u16]) -> (r: String)
    ensures
        r@ == utf16_lossy(u@),
{
    String::from_utf16_lossy(u)
}

/// The raw values of the metadata tags that ratings and tags are read from:
/// the byte order of the metadata and the bytes of the rating, user comment
/// and image description tags, where present.
#[derive(Debug)]
pub struct MetaTags {
    pub little_endian: bool,
    pub rating: Option<Vec<u8>>,
    pub user_comment: Option<Vec<u8>>,
    pub description: Option<Vec<u8>>,
}

/// The percent value stored beside a star rating.
pub open spec fn percent_of(rating: u8) -> u16 {
    if rating == 0 {
        0
    } else if rating == 1 {
        1
    } else if rating == 2 {
        25
    } else if rating == 3 {
        50
    } else if rating == 4 {
        75
    } else {
        99
    }
}

/// The percent value stored beside a star rating: 0, 1, 25, 50, 75, 99.
pub fn percent_for(rating: u8) -> (r: u16)
    ensures
        r == percent_of(rating),
{
    match rating {
        0 => 0,
        1 => 1,
        2 => 25,
        3 => 50,
        4 => 75,
        _ => 99,
    }
}

/// A 16-bit value from two bytes in the given byte order.
pub open spec fn u16_of(b0: u8, b1: u8, little: bool) -> int {
    if little {
        b0 + 256 * b1
    } else {
        256 * b0 + b1
    }
}

/// The star rating held by the rating tag's bytes, at most 5; 0 without it.
pub open spec fn rating_of(bytes: Option<Seq<u8>>, little: bool) -> u8 {
    match bytes {
        None => 0,
        Some(b) => if b.len() >= 2 {
            if u16_of(b[0], b[1], little) > 5 { 5 } else { u16_of(b[0], b[1], little) as u8 }
        } else if b.len() == 1 {
            if b[0] > 5 { 5 } else { b[0] }
        } else {
            0
        },
    }
}

pub open spec fn opt_bytes(o: Option<Vec<u8>>) -> Option<Seq<u8>> {
    match o {
        Some(v) => Some(v@),
        None => None,
    }
}

/// The star rating recorded in the metadata (see [`rating_of`]).
pub fn parse_rating(meta: &MetaTags) -> (r: u8)
    ensures
        r == rating_of(opt_bytes(meta.rating), meta.little_endian),
{
    match &meta.rating {
        None => 0,
        Some(b) => {
            if b.len() >= 2 {
                let v: u16 = if meta.little_endian {
                    b[0] as u16 + 256 * (b[1] as u16)
                } else {
                    256 * (b[0] as u16) + b[1] as u16
                };
                if v > 5 { 5 } else { v as u8 }
            } else if b.len() == 1 {
                if b[0] > 5 { 5 } else { b[0] }
            } else {
                0
            }
        },
    }
}

/// The 16-bit units of `b` read two bytes at a time (a trailing odd byte
/// ignored).
pub open spec fn units_of(b: Seq<u8>, little: bool) -> Seq<u16> {
    Seq::new(b.len() / 2, |i: int| u16_of(b[2 * i], b[2 * i + 1], little) as u16)
}

/// How many byte pairs have exactly one zero byte.
pub open spec fn one_zero_pairs(b: Seq<u8>, n: nat) -> nat
    decreases n,
{
    if n == 0 {
        0
    } else {
        let i = n - 1;
        one_zero_pairs(b, i as nat) + if (b[2 * i] == 0) != (b[2 * i + 1] == 0) { 1nat } else { 0nat }
    }
}

/// Bytes look like UTF-16: an even number, at least two, with at least half
/// of the byte pairs having exactly one zero byte.
pub open spec fn utf16_like(b: Seq<u8>) -> bool {
    b.len() >= 2 && b.len() % 2 == 0 && one_zero_pairs(b, b.len() / 2) * 2 >= b.len() / 2
}

/// Whether the bytes look like UTF-16 (see [`utf16_like`]).
pub fn looks_like_utf16(bytes: &[u8]) -> (r: bool)
    ensures
        r == utf16_like(bytes@),
{
    if bytes.len() < 2 || bytes.len() % 2 != 0 {
        return false;
    }
    let n = bytes.len() / 2;
    let mut count: usize = 0;
    let mut i: usize = 0;
    while i < n
        invariant
            n == bytes.len() / 2,
            i <= n,
            count == one_zero_pairs(bytes@, i as nat),
            count <= i,
        decreases n - i,
    {
        if (bytes[2 * i] == 0) != (bytes[2 * i + 1] == 0) {
            count = count + 1;
        }
        i = i + 1;
    }
    count * 2 >= n
}

fn units_from(bytes: &[u8], little: bool) -> (r: Vec<u16>)
    ensures
        r@ == units_of(bytes@, little),
{
    let n = bytes.len() / 2;
    let mut r: Vec<u16> = Vec::new();
    let mut i: usize = 0;
    while i < n
        invariant
            n == bytes.len() / 2,
            i <= n,
            r@ =~= units_of(bytes@, little).take(i as int),
        decreases n - i,
    {
        let u: u16 = if little {
            bytes[2 * i] as u16 + 256 * (bytes[2 * i + 1] as u16)
        } else {
            256 * (bytes[2 * i] as u16) + bytes[2 * i + 1] as u16
        };
        r.push(u);
        assert(r@ =~= units_of(bytes@, little).take(i + 1));
        i = i + 1;
    }
    r
}

/// UTF-16 text decoded (lossily) in the given byte order, then normalized.
pub open spec fn utf16_text(b: Seq<u8>, little: bool) -> Seq<char> {
    normalized(utf16_lossy(units_of(b, little)))
}

/// Text of a user comment: after an 8-byte `UNICODE` header UTF-16; after
/// an `ASCII` or all-zero header UTF-8; headerless UTF-16 when the bytes look
/// like it; else UTF-8 (decoded lossily and normalized).
pub open spec fn comment_text(b: Seq<u8>, little: bool) -> Seq<char> {
    if b.len() >= 8 && b.subrange(0, 7) == "UNICODE"@.map_values(|c: char| c as u8) {
        utf16_text(b.subrange(8, b.len() as int), little)
    } else if b.len() >= 8 && (b.subrange(0, 5) == "ASCII"@.map_values(|c: char| c as u8) || (forall|i: int| 0 <= i < 8 ==> b[i] == 0)) {
        normalized(utf8_lossy(b.subrange(8, b.len() as int)))
    } else if utf16_like(b) {
        utf16_text(b, little)
    } else {
        normalized(utf8_lossy(b))
    }
}

fn has_ascii_prefix(b: &[u8], p: &str) -> (r: bool)
    ensures
        r == (p@.len() <= b@.len() && b@.subrange(0, p@.len() as int) == p@.map_values(|c: char| c as u8)),
{
    let pc = chars_of(p);
    if pc.len() > b.len() {
        return false;
    }
    let mut i: usize = 0;
    while i < pc.len()
        invariant
            pc@ == p@,
            pc.len() <= b.len(),
            i <= pc.len(),
            forall|k: int| 0 <= k < i ==> b@[k] == pc@[k] as u8,
        decreases pc.len() - i,
    {
        if b[i] != pc[i] as u8 {
            assert(b@.subrange(0, p@.len() as int)[i as int] != p@.map_values(|c: char| c as u8)[i as int]);
            return false;
        }
        i = i + 1;
    }
    assert(b@.subrange(0, p@.len() as int) =~= p@.map_values(|c: char| c as u8));
    true
}

/// UTF-16 text in the given byte order, decoded lossily.
pub(crate) fn utf16_string(bytes: &[u8], little: bool) -> (r: String)
    ensures
        r@ == utf16_lossy(units_of(bytes@, little)),
{
    let u = units_from(bytes, little);
    from_utf16_lossy(u.as_slice())
}

fn decode_utf16(bytes: &[u8], little: bool) -> (r: String)
    ensures
        r@ == utf16_text(bytes@, little),
{
    let u = units_from(bytes, little);
    let s = from_utf16_lossy(u.as_slice());
    normalize_tag_text(s.as_str())
}

fn tail_from(b: &[u8], k: usize) -> (r: Vec<u8>)
    requires
        k <= b.len(),
    ensures
        r@ == b@.subrange(k as int, b@.len() as int),
{
    let mut r: Vec<u8> = Vec::new();
    let mut i: usize = k;
    while i < b.len()
        invariant
            k <= i <= b.len(),
            r@ =~= b@.subrange(k as int, i as int),
        decreases b.len() - i,
    {
        r.push(b[i]);
        i = i + 1;
    }
    r
}

/// The text of a user comment tag (see [`comment_text`]).
pub fn decode_user_comment(bytes: &[u8], little: bool) -> (r: String)
    ensures
        r@ == comment_text(bytes@, little),
{
    if bytes.len() >= 8 && has_ascii_prefix(bytes, "UNICODE") {
        proof { reveal_strlit("UNICODE"); }
        return decode_utf16(tail_from(bytes, 8).as_slice(), little);
    }
    proof { reveal_strlit("UNICODE"); }
    if bytes.len() >= 8 {
        let mut zeros = true;
        let mut i: usize = 0;
        while i < 8
            invariant
                bytes.len() >= 8,
                i <= 8,
                zeros == (forall|k: int| 0 <= k < i ==> bytes@[k] == 0),
            decreases 8 - i,
        {
            if bytes[i] != 0 {
                zeros = false;
            }
            i = i + 1;
        }
        if has_ascii_prefix(bytes, "ASCII") || zeros {
            proof { reveal_strlit("ASCII"); }
            let t = from_utf8_lossy(tail_from(bytes, 8).as_slice());
            return normalize_tag_text(t.as_str());
        }
        proof { reveal_strlit("ASCII"); }
    }
    if looks_like_utf16(bytes) {
        decode_utf16(bytes, little)
    } else {
        let t = from_utf8_lossy(bytes);
        normalize_tag_text(t.as_str())
    }
}

/// The tags recorded in the metadata: the user comment's text when it is
/// not empty, else the image description (lossily decoded, normalized),
/// else nothing.
pub open spec fn tags_in(user_comment: Option<Seq<u8>>, description: Option<Seq<u8>>, little: bool) -> Seq<char> {
    if user_comment is Some && comment_text(user_comment->0, little).len() > 0 {
        comment_text(user_comment->0, little)
    } else {
        match description {
            Some(d) => normalized(utf8_lossy(d)),
            None => Seq::<char>::empty(),
        }
    }
}

/// The tags recorded in the metadata (see [`tags_in`]).
pub fn parse_tags(meta: &MetaTags) -> (r: String)
    ensures
        r@ == tags_in(opt_bytes(meta.user_comment), opt_bytes(meta.description), meta.little_endian),
{
    if let Some(c) = &meta.user_comment {
        let text = decode_user_comment(c.as_slice(), meta.little_endian);
        if !text.as_str().is_empty() {
            return text;
        }
    }
    match &meta.description {
        Some(d) => {
            let t = from_utf8_lossy(d.as_slice());
            normalize_tag_text(t.as_str())
        },
        None => String::new(),
    }
}

/// UTF-16 code units of one character.
pub open spec fn utf16_of_char(c: char) -> Seq<u16> {
    let v = c as u32;
    if v < 0x10000 {
        seq![v as u16]
    } else {
        seq![(0xD800 + (v - 0x10000) / 0x400) as u16, (0xDC00 + (v - 0x10000) % 0x400) as u16]
    }
}

/// UTF-16 code units of a text.
pub open spec fn utf16_of(s: Seq<char>) -> Seq<u16>
    decreases s.len(),
{
    if s.len() == 0 {
        Seq::empty()
    } else {
        utf16_of(s.drop_last()) + utf16_of_char(s.last())
    }
}

/// Decoding code units that do not end in a high surrogate, then more code
/// units, decodes each part on its own.
pub proof fn lemma_utf16_lossy_append(a: Seq<u16>, b: Seq<u16>)
    requires
        a.len() == 0 || !is_high_surrogate(a.last()),
    ensures
        utf16_lossy(a + b) == utf16_lossy(a) + utf16_lossy(b),
    decreases a.len(),
{
    if a.len() == 0 {
        assert(a + b =~= b);
        assert(utf16_lossy(a) + utf16_lossy(b) =~= utf16_lossy(b));
    } else {
        let s = a + b;
        assert(s[0] == a[0]);
        if is_high_surrogate(a[0]) && a.len() >= 2 && is_low_surrogate(a[1]) {
            assert(s[1] == a[1]);
            let a2 = a.subrange(2, a.len() as int);
            assert(a2.len() == 0 || a2.last() == a.last());
            lemma_utf16_lossy_append(a2, b);
            assert(s.subrange(2, s.len() as int) =~= a2 + b);
            assert(seq![pair_char(a[0], a[1])] + (utf16_lossy(a2) + utf16_lossy(b))
                =~= (seq![pair_char(a[0], a[1])] + utf16_lossy(a2)) + utf16_lossy(b));
        } else {
            if is_high_surrogate(a[0]) {
                assert(a.len() >= 2);
                assert(s[1] == a[1]);
            }
            let a1 = a.drop_first();
            assert(a1.len() == 0 || a1.last() == a.last());
            lemma_utf16_lossy_append(a1, b);
            assert(s.drop_first() =~= a1 + b);
            let h = if is_high_surrogate(a[0]) || is_low_surrogate(a[0]) { seq!['\u{FFFD}'] } else { seq![(a[0] as u32) as char] };
            assert(h + (utf16_lossy(a1) + utf16_lossy(b)) =~= (h + utf16_lossy(a1)) + utf16_lossy(b));
        }
    }
}

/// One character's code units decode to it, and do not end in a high
/// surrogate.
pub proof fn lemma_utf16_char(c: char)
    ensures
        utf16_lossy(utf16_of_char(c)) == seq![c],
        !is_high_surrogate(utf16_of_char(c).last()),
{
    let v = c as u32;
    let w = utf16_of_char(c);
    if v < 0x10000 {
        assert(!(0xD800 <= v && v < 0xE000));
        assert(w.drop_first() =~= Seq::<u16>::empty());
        assert((w[0] as u32) as char == c);
        assert(seq![(w[0] as u32) as char] + utf16_lossy(Seq::<u16>::empty()) =~= seq![c]);
    } else {
        let x = (v - 0x10000) as int;
        assert(0 <= x < 0x100000);
        let q = x / 0x400;
        let r = x % 0x400;
        assert(x == q * 0x400 + r && 0 <= r < 0x400 && 0 <= q < 0x400) by (nonlinear_arith)
            requires 0 <= x < 0x100000, q == x / 0x400, r == x % 0x400;
        assert(w[0] == (0xD800 + q) as u16 && w[1] == (0xDC00 + r) as u16);
        assert(w.subrange(2, 2) =~= Seq::<u16>::empty());
        assert(pair_char(w[0], w[1]) == c);
        assert(seq![pair_char(w[0], w[1])] + utf16_lossy(Seq::<u16>::empty()) =~= seq![c]);
    }
}

/// The code units of a text decode back to it.
pub proof fn lemma_utf16_round_trip(s: Seq<char>)
    ensures
        utf16_lossy(utf16_of(s)) == s,
        s.len() > 0 ==> !is_high_surrogate(utf16_of(s).last()),
    decreases s.len(),
{
    if s.len() > 0 {
        let p = s.drop_last();
        lemma_utf16_round_trip(p);
        lemma_utf16_char(s.last());
        assert(utf16_of(p).len() == 0 || !is_high_surrogate(utf16_of(p).last())) by {
            if p.len() == 0 {
                assert(utf16_of(p) =~= Seq::<u16>::empty());
            }
        }
        lemma_utf16_lossy_append(utf16_of(p), utf16_of_char(s.last()));
        assert(p + seq![s.last()] =~= s);
        let w = utf16_of_char(s.last());
        assert((utf16_of(p) + w).last() == w.last());
    }
}

/// Bytes of 16-bit units in the given byte order.
pub open spec fn unit_bytes(u: Seq<u16>, little: bool) -> Seq<u8>
    decreases u.len(),
{
    if u.len() == 0 {
        Seq::empty()
    } else {
        let x = u.last();
        let lo = (x % 256) as u8;
        let hi = (x / 256) as u8;
        unit_bytes(u.drop_last(), little) + if little { seq![lo, hi] } else { seq![hi, lo] }
    }
}

/// Units written as bytes in a byte order are read back in that order.
pub proof fn lemma_units_round_trip(u: Seq<u16>, little: bool)
    ensures
        unit_bytes(u, little).len() == 2 * u.len(),
        units_of(unit_bytes(u, little), little) == u,
    decreases u.len(),
{
    if u.len() > 0 {
        let p = u.drop_last();
        lemma_units_round_trip(p, little);
        let b = unit_bytes(u, little);
        let bp = unit_bytes(p, little);
        let x = u.last();
        let lo = (x % 256) as u8;
        let hi = (x / 256) as u8;
        assert(lo + 256 * hi == x) by (nonlinear_arith)
            requires lo == x % 256, hi == x / 256;
        assert forall|i: int| 0 <= i < u.len() implies #[trigger] units_of(b, little)[i] == u[i] by {
            if i < p.len() {
                assert(b[2 * i] == bp[2 * i] && b[2 * i + 1] == bp[2 * i + 1]);
                assert(units_of(bp, little)[i] == p[i]);
            } else {
                assert(b[2 * i] == (if little { lo } else { hi }));
                assert(b[2 * i + 1] == (if little { hi } else { lo }));
            }
        }
        assert(units_of(b, little) =~= u);
    }
}

/// A user comment written for a text reads back as the text normalized.
pub proof fn lemma_comment_round_trip(text: Seq<char>, little: bool)
    ensures
        comment_text(comment_bytes(text, little), little) == normalized(text),
{
    reveal_strlit("UNICODE");
    let b = comment_bytes(text, little);
    let u = utf16_of(text);
    lemma_units_round_trip(u, little);
    lemma_utf16_round_trip(text);
    let head = seq![0x55u8, 0x4e, 0x49, 0x43, 0x4f, 0x44, 0x45, 0x00];
    assert(b.subrange(0, 7) =~= "UNICODE"@.map_values(|c: char| c as u8));
    assert(b.subrange(8, b.len() as int) =~= unit_bytes(u, little));
}

/// A user comment holding `text`: the `UNICODE\0` header, then the text in
/// UTF-16 in the metadata's byte order.
pub open spec fn comment_bytes(text: Seq<char>, little: bool) -> Seq<u8> {
    seq![0x55u8, 0x4e, 0x49, 0x43, 0x4f, 0x44, 0x45, 0x00] + unit_bytes(utf16_of(text), little)
}

fn push_unit(out: &mut Vec<u8>, x: u16, little: bool)
    ensures
        final(out)@ == old(out)@ + if little {
            seq![(x % 256) as u8, (x / 256) as u8]
        } else {
            seq![(x / 256) as u8, (x % 256) as u8]
        },
{
    let lo = (x % 256) as u8;
    let hi = (x / 256) as u8;
    if little {
        out.push(lo);
        out.push(hi);
    } else {
        out.push(hi);
        out.push(lo);
    }
}

/// The user comment bytes that hold `text` (see [`comment_bytes`]).
pub fn encode_user_comment(text: &str, little: bool) -> (r: Vec<u8>)
    ensures
        r@ == comment_bytes(text@, little),
{
    let s = chars_of(text);
    let mut out: Vec<u8> = Vec::new();
    out.push(0x55);
    out.push(0x4e);
    out.push(0x49);
    out.push(0x43);
    out.push(0x4f);
    out.push(0x44);
    out.push(0x45);
    out.push(0x00);
    let ghost head = out@;
    let mut i: usize = 0;
    assert(unit_bytes(utf16_of(s@.take(0)), little) =~= Seq::<u8>::empty());
    while i < s.len()
        invariant
            i <= s.len(),
            head == seq![0x55u8, 0x4e, 0x49, 0x43, 0x4f, 0x44, 0x45, 0x00],
            out@ == head + unit_bytes(utf16_of(s@.take(i as int)), little),
        decreases s.len() - i,
    {
        let c = s[i];
        let v = c as u32;
        let ghost before = utf16_of(s@.take(i as int));
        assert(s@.take(i + 1).drop_last() =~= s@.take(i as int));
        if v < 0x10000 {
            push_unit(&mut out, v as u16, little);
            proof {
                let x = v as u16;
                let w = seq![x];
                assert(utf16_of(s@.take(i + 1)) == before + w);
                assert(before + w =~= before.push(x));
                assert(before.push(x).drop_last() =~= before);
                let pr = if little { seq![(x % 256) as u8, (x / 256) as u8] } else { seq![(x / 256) as u8, (x % 256) as u8] };
                assert(unit_bytes(before.push(x), little) == unit_bytes(before, little) + pr);
                assert(out@ =~= head + (unit_bytes(before, little) + pr));
            }
        } else {
            let hi: u16 = (0xD800 + (v - 0x10000) / 0x400) as u16;
            let lo: u16 = (0xDC00 + (v - 0x10000) % 0x400) as u16;
            push_unit(&mut out, hi, little);
            push_unit(&mut out, lo, little);
            proof {
                let w = seq![hi, lo];
                assert(utf16_of(s@.take(i + 1)) == before + w);
                assert(before + w =~= before.push(hi).push(lo));
                assert(before.push(hi).push(lo).drop_last() =~= before.push(hi));
                assert(before.push(hi).drop_last() =~= before);
                let p1 = if little { seq![(hi % 256) as u8, (hi / 256) as u8] } else { seq![(hi / 256) as u8, (hi % 256) as u8] };
                let p2 = if little { seq![(lo % 256) as u8, (lo / 256) as u8] } else { seq![(lo / 256) as u8, (lo % 256) as u8] };
                assert(unit_bytes(before.push(hi), little) == unit_bytes(before, little) + p1);
                assert(unit_bytes(before.push(hi).push(lo), little) == unit_bytes(before.push(hi), little) + p2);
                assert(out@ =~= head + (unit_bytes(before, little) + p1 + p2));
            }
        }
        assert(out@ =~= head + unit_bytes(utf16_of(s@.take(i + 1)), little));
        i = i + 1;
    }
    assert(s@.take(i as int) =~= s@);
    out
}

/// Tag values to write: both tags removed for empty tags, else the user
/// comment and the image description set to the tags.
#[derive(Debug)]
pub enum TagWrite {
    Remove,
    Write { user_comment: Vec<u8>, description: String },
}

/// What writing `tags` into metadata of the given byte order sets.
pub fn tag_write(tags: &str, little: bool) -> (r: TagWrite)
    ensures
        tags@.len() == 0 ==> r is Remove,
        tags@.len() > 0 ==> (r matches TagWrite::Write { user_comment, description }
            && user_comment@ == comment_bytes(tags@, little) && description@ == tags@),
{
    if tags.is_empty() {
        TagWrite::Remove
    } else {
        TagWrite::Write { user_comment: encode_user_comment(tags, little), description: tags.to_owned() }
    }
}

/// Marking a file: its recorded tags merged with the incoming ones, and the
/// tag values that hold the result.
pub fn mark_tags(meta: &MetaTags, incoming: &str) -> (r: (String, TagWrite))
    ensures
        r.0@ == merged_tags(
            tags_in(opt_bytes(meta.user_comment), opt_bytes(meta.description), meta.little_endian),
            incoming@,
        ),
        r.0@.len() == 0 ==> r.1 is Remove,
        r.0@.len() > 0 ==> (r.1 matches TagWrite::Write { user_comment, description }
            && user_comment@ == comment_bytes(r.0@, meta.little_endian) && description@ == r.0@),
{
    let existing = parse_tags(meta);
    let merged = merge_tag_lists(existing.as_str(), incoming);
    let w = tag_write(merged.as_str(), meta.little_endian);
    (merged, w)
}

/// Whether metadata work may go ahead on an image: a path is given, it
/// resolves, and it is a file (`target` tells whether it is one).
pub fn image_target(path: &str, target: Result<bool, String>) -> (r: Result<(), String>)
    ensures
        path@.len() == 0 ==> (r matches Err(e) && e@ == "未选择图片"@),
        path@.len() > 0 && target is Err ==> (r matches Err(e) && e@ == target->Err_0@),
        path@.len() > 0 && target == Ok::<bool, String>(false) ==> (r matches Err(e) && e@ == "文件不存在"@),
        path@.len() > 0 && target == Ok::<bool, String>(true) ==> r is Ok,
{
    if path.is_empty() {
        return Err("未选择图片".to_owned());
    }
    match target {
        Err(e) => Err(e),
        Ok(false) => Err("文件不存在".to_owned()),
        Ok(true) => Ok(()),
    }
}

/// A star rating must lie in 0..=5.
pub fn check_rating(rating: u8) -> (r: Result<(), String>)
    ensures
        r is Ok <==> rating <= 5,
        r matches Err(e) ==> e@ == "星标须为 0–5"@,
{
    if rating > 5 {
        Err("星标须为 0–5".to_owned())
    } else {
        Ok(())
    }
}

} // verus!
