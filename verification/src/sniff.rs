//! Classifies a file from its first bytes, without looking at its name.

use vstd::prelude::*;
use vstd::utf8::{
    codepoint_width_1, codepoint_width_2, codepoint_width_3, codepoint_width_4,
    continuation_bits, decode_first_codepoint, decode_first_scalar, is_continuation_byte,
    length_of_first_scalar, pop_first_scalar, valid_first_scalar,
};

verus! {

/// What a file holds, judged from its header.
#[derive(Clone, Copy, Debug, PartialEq, Eq, Structural)]
pub enum FileKind {
    Image,
    Video,
    Text,
    Other,
}

/// `buf` begins with the bytes `p`.
pub open spec fn has_prefix(buf: Seq<u8>, p: Seq<u8>) -> bool {
    p.len() <= buf.len() && buf.subrange(0, p.len() as int) == p
}

/// Bytes 4..8 are `ftyp` (ISO base media file).
pub open spec fn is_ftyp(buf: Seq<u8>) -> bool {
    buf.len() >= 12 && buf.subrange(4, 8) == seq![0x66u8, 0x74, 0x79, 0x70]
}

/// Brands of ISO base media files that hold still images (AVIF, HEIF).
pub open spec fn is_image_brand(brand: Seq<u8>) -> bool {
    ||| brand == seq![0x61u8, 0x76, 0x69, 0x66]
    ||| brand == seq![0x61u8, 0x76, 0x69, 0x73]
    ||| brand == seq![0x68u8, 0x65, 0x69, 0x63]
    ||| brand == seq![0x68u8, 0x65, 0x69, 0x66]
    ||| brand == seq![0x6du8, 0x69, 0x66, 0x31]
    ||| brand == seq![0x6du8, 0x73, 0x66, 0x31]
}

/// The kind that a binary signature at the start of `buf` gives, if any:
/// PNG, JPEG, GIF, BMP, TIFF and ICO are images; RIFF is an image (WEBP),
/// a video (AVI) or something else; ISO media is an image for the AVIF/HEIF
/// brands and a video otherwise; Matroska is a video; PDF, ZIP and MP3 with
/// ID3 are other files.
pub open spec fn binary_kind_of(buf: Seq<u8>) -> Option<FileKind> {
    if has_prefix(buf, seq![0x89u8, 0x50, 0x4e, 0x47, 0x0d, 0x0a, 0x1a, 0x0a]) {
        Some(FileKind::Image)
    } else if has_prefix(buf, seq![0xffu8, 0xd8, 0xff]) {
        Some(FileKind::Image)
    } else if has_prefix(buf, seq![0x47u8, 0x49, 0x46, 0x38, 0x37, 0x61]) || has_prefix(
        buf,
        seq![0x47u8, 0x49, 0x46, 0x38, 0x39, 0x61],
    ) {
        Some(FileKind::Image)
    } else if has_prefix(buf, seq![0x42u8, 0x4d]) {
        Some(FileKind::Image)
    } else if has_prefix(buf, seq![0x49u8, 0x49, 0x2a, 0x00]) || has_prefix(
        buf,
        seq![0x4du8, 0x4d, 0x00, 0x2a],
    ) {
        Some(FileKind::Image)
    } else if has_prefix(buf, seq![0x00u8, 0x00, 0x01, 0x00]) {
        Some(FileKind::Image)
    } else if buf.len() >= 12 && has_prefix(buf, seq![0x52u8, 0x49, 0x46, 0x46]) {
        if buf.subrange(8, 12) == seq![0x57u8, 0x45, 0x42, 0x50] {
            Some(FileKind::Image)
        } else if buf.subrange(8, 12) == seq![0x41u8, 0x56, 0x49, 0x20] {
            Some(FileKind::Video)
        } else {
            Some(FileKind::Other)
        }
    } else if is_ftyp(buf) {
        if is_image_brand(buf.subrange(8, 12)) {
            Some(FileKind::Image)
        } else {
            Some(FileKind::Video)
        }
    } else if has_prefix(buf, seq![0x1au8, 0x45, 0xdf, 0xa3]) {
        Some(FileKind::Video)
    } else if has_prefix(buf, seq![0x25u8, 0x50, 0x44, 0x46]) {
        Some(FileKind::Other)
    } else if has_prefix(buf, seq![0x50u8, 0x4b, 0x03, 0x04]) {
        Some(FileKind::Other)
    } else if has_prefix(buf, seq![0x49u8, 0x44, 0x33]) {
        Some(FileKind::Other)
    } else {
        None
    }
}

/// Length of the longest prefix of `b` that is valid UTF-8, scanning one
/// well-formed scalar after another (what `Utf8Error::valid_up_to` reports).
pub open spec fn valid_prefix_len(b: Seq<u8>) -> nat
    decreases b.len(),
{
    if b.len() > 0 && valid_first_scalar(b) {
        (length_of_first_scalar(b) + valid_prefix_len(pop_first_scalar(b))) as nat
    } else {
        0
    }
}

/// A scalar that text may hold: tab, line feed, carriage return, or any
/// scalar that is not a control character (category `Cc`).
pub open spec fn text_scalar(cp: u32) -> bool {
    cp == 9 || cp == 10 || cp == 13 || !(cp <= 0x1F || (0x7F <= cp && cp <= 0x9F))
}

/// Every scalar of the valid UTF-8 prefix of `b` may stand in text.
pub open spec fn prefix_scalars_text(b: Seq<u8>) -> bool
    decreases b.len(),
{
    if b.len() > 0 && valid_first_scalar(b) {
        text_scalar(decode_first_scalar(b)) && prefix_scalars_text(pop_first_scalar(b))
    } else {
        true
    }
}

/// `buf` with a leading UTF-8 byte order mark removed.
pub open spec fn without_bom(buf: Seq<u8>) -> Seq<u8> {
    if has_prefix(buf, seq![0xefu8, 0xbb, 0xbf]) {
        buf.subrange(3, buf.len() as int)
    } else {
        buf
    }
}

/// Text: empty, or a UTF-16 byte order mark, or (after a UTF-8 byte order
/// mark) no NUL byte, a valid UTF-8 prefix that leaves at most three trailing
/// bytes (a character cut off by the end of the header) and is not empty
/// unless the whole is, and only text scalars in that prefix.
pub open spec fn looks_like_text_spec(buf: Seq<u8>) -> bool {
    if buf.len() == 0 {
        true
    } else if has_prefix(buf, seq![0xffu8, 0xfe]) || has_prefix(buf, seq![0xfeu8, 0xff]) {
        true
    } else {
        let rest = without_bom(buf);
        let up = valid_prefix_len(rest);
        if rest.contains(0u8) {
            false
        } else if up < rest.len() && (up == 0 || rest.len() - up > 3) {
            false
        } else {
            prefix_scalars_text(rest)
        }
    }
}

/// The kind of a file from its first bytes: a binary signature decides,
/// else text, else other.
pub open spec fn kind_of_header(buf: Seq<u8>) -> FileKind {
    match binary_kind_of(buf) {
        Some(k) => k,
        None => if looks_like_text_spec(buf) {
            FileKind::Text
        } else {
            FileKind::Other
        },
    }
}

fn prefix_is(buf: &[u8], p: &[u8]) -> (r: bool)
    ensures
        r == has_prefix(buf@, p@),
{
    if p.len() > buf.len() {
        return false;
    }
    let mut i: usize = 0;
    while i < p.len()
        invariant
            i <= p.len(),
            p.len() <= buf.len(),
            forall|j: int| 0 <= j < i ==> buf@[j] == p@[j],
        decreases p.len() - i,
    {
        if buf[i] != p[i] {
            return false;
        }
        i = i + 1;
    }
    assert(buf@.subrange(0, p@.len() as int) =~= p@);
    true
}

fn four_at(buf: &[u8], at: usize, q: &[u8; 4]) -> (r: bool)
    requires
        at + 4 <= buf@.len(),
    ensures
        r == (buf@.subrange(at as int, at + 4) == q@),
{
    let r = buf[at] == q[0] && buf[at + 1] == q[1] && buf[at + 2] == q[2] && buf[at + 3] == q[3];
    if r {
        assert(buf@.subrange(at as int, at + 4) =~= q@);
    } else {
        proof {
            if buf@.subrange(at as int, at + 4) == q@ {
                assert(buf@.subrange(at as int, at + 4)[0] == q@[0]);
                assert(buf@.subrange(at as int, at + 4)[1] == q@[1]);
                assert(buf@.subrange(at as int, at + 4)[2] == q@[2]);
                assert(buf@.subrange(at as int, at + 4)[3] == q@[3]);
            }
        }
    }
    r
}

/// The kind that a binary signature gives, if any (see [`binary_kind_of`]).
pub fn binary_kind(buf: &[u8]) -> (r: Option<FileKind>)
    ensures
        r == binary_kind_of(buf@),
{
    let png: [u8; 8] = [0x89, 0x50, 0x4e, 0x47, 0x0d, 0x0a, 0x1a, 0x0a];
    assert(png@ =~= seq![0x89u8, 0x50, 0x4e, 0x47, 0x0d, 0x0a, 0x1a, 0x0a]);
    if prefix_is(buf, &png) {
        return Some(FileKind::Image);
    }
    let jpg: [u8; 3] = [0xff, 0xd8, 0xff];
    assert(jpg@ =~= seq![0xffu8, 0xd8, 0xff]);
    if prefix_is(buf, &jpg) {
        return Some(FileKind::Image);
    }
    let gif7: [u8; 6] = [0x47, 0x49, 0x46, 0x38, 0x37, 0x61];
    let gif9: [u8; 6] = [0x47, 0x49, 0x46, 0x38, 0x39, 0x61];
    assert(gif7@ =~= seq![0x47u8, 0x49, 0x46, 0x38, 0x37, 0x61]);
    assert(gif9@ =~= seq![0x47u8, 0x49, 0x46, 0x38, 0x39, 0x61]);
    if prefix_is(buf, &gif7) || prefix_is(buf, &gif9) {
        return Some(FileKind::Image);
    }
    let bmp: [u8; 2] = [0x42, 0x4d];
    assert(bmp@ =~= seq![0x42u8, 0x4d]);
    if prefix_is(buf, &bmp) {
        return Some(FileKind::Image);
    }
    let tif_le: [u8; 4] = [0x49, 0x49, 0x2a, 0x00];
    let tif_be: [u8; 4] = [0x4d, 0x4d, 0x00, 0x2a];
    assert(tif_le@ =~= seq![0x49u8, 0x49, 0x2a, 0x00]);
    assert(tif_be@ =~= seq![0x4du8, 0x4d, 0x00, 0x2a]);
    if prefix_is(buf, &tif_le) || prefix_is(buf, &tif_be) {
        return Some(FileKind::Image);
    }
    let ico: [u8; 4] = [0x00, 0x00, 0x01, 0x00];
    assert(ico@ =~= seq![0x00u8, 0x00, 0x01, 0x00]);
    if prefix_is(buf, &ico) {
        return Some(FileKind::Image);
    }
    let riff: [u8; 4] = [0x52, 0x49, 0x46, 0x46];
    assert(riff@ =~= seq![0x52u8, 0x49, 0x46, 0x46]);
    if buf.len() >= 12 && prefix_is(buf, &riff) {
        let webp: [u8; 4] = [0x57, 0x45, 0x42, 0x50];
        let avi: [u8; 4] = [0x41, 0x56, 0x49, 0x20];
        assert(webp@ =~= seq![0x57u8, 0x45, 0x42, 0x50]);
        assert(avi@ =~= seq![0x41u8, 0x56, 0x49, 0x20]);
        if four_at(buf, 8, &webp) {
            return Some(FileKind::Image);
        }
        if four_at(buf, 8, &avi) {
            return Some(FileKind::Video);
        }
        return Some(FileKind::Other);
    }
    let ftyp: [u8; 4] = [0x66, 0x74, 0x79, 0x70];
    assert(ftyp@ =~= seq![0x66u8, 0x74, 0x79, 0x70]);
    if buf.len() >= 12 && four_at(buf, 4, &ftyp) {
        let b0: [u8; 4] = [0x61, 0x76, 0x69, 0x66];
        let b1: [u8; 4] = [0x61, 0x76, 0x69, 0x73];
        let b2: [u8; 4] = [0x68, 0x65, 0x69, 0x63];
        let b3: [u8; 4] = [0x68, 0x65, 0x69, 0x66];
        let b4: [u8; 4] = [0x6d, 0x69, 0x66, 0x31];
        let b5: [u8; 4] = [0x6d, 0x73, 0x66, 0x31];
        assert(b0@ =~= seq![0x61u8, 0x76, 0x69, 0x66]);
        assert(b1@ =~= seq![0x61u8, 0x76, 0x69, 0x73]);
        assert(b2@ =~= seq![0x68u8, 0x65, 0x69, 0x63]);
        assert(b3@ =~= seq![0x68u8, 0x65, 0x69, 0x66]);
        assert(b4@ =~= seq![0x6du8, 0x69, 0x66, 0x31]);
        assert(b5@ =~= seq![0x6du8, 0x73, 0x66, 0x31]);
        if four_at(buf, 8, &b0) || four_at(buf, 8, &b1) || four_at(buf, 8, &b2) || four_at(buf, 8, &b3)
            || four_at(buf, 8, &b4) || four_at(buf, 8, &b5) {
            return Some(FileKind::Image);
        }
        return Some(FileKind::Video);
    }
    let mkv: [u8; 4] = [0x1a, 0x45, 0xdf, 0xa3];
    assert(mkv@ =~= seq![0x1au8, 0x45, 0xdf, 0xa3]);
    if prefix_is(buf, &mkv) {
        return Some(FileKind::Video);
    }
    let pdf: [u8; 4] = [0x25, 0x50, 0x44, 0x46];
    assert(pdf@ =~= seq![0x25u8, 0x50, 0x44, 0x46]);
    if prefix_is(buf, &pdf) {
        return Some(FileKind::Other);
    }
    let zip: [u8; 4] = [0x50, 0x4b, 0x03, 0x04];
    assert(zip@ =~= seq![0x50u8, 0x4b, 0x03, 0x04]);
    if prefix_is(buf, &zip) {
        return Some(FileKind::Other);
    }
    let id3: [u8; 3] = [0x49, 0x44, 0x33];
    assert(id3@ =~= seq![0x49u8, 0x44, 0x33]);
    if prefix_is(buf, &id3) {
        return Some(FileKind::Other);
    }
    None
}

/// Decodes the well-formed UTF-8 scalar that starts at `b[i..]`, if there is
/// one: its value and its length in bytes.
fn first_scalar(b: &[u8], i: usize) -> (r: Option<(u32, usize)>)
    requires
        i <= b@.len(),
    ensures
        r is Some <==> (b@.len() > i && valid_first_scalar(b@.subrange(i as int, b@.len() as int))),
        r matches Some((cp, w)) ==> {
            let s = b@.subrange(i as int, b@.len() as int);
            &&& cp == decode_first_scalar(s)
            &&& w == length_of_first_scalar(s)
            &&& 1 <= w <= 4
            &&& i + w <= b@.len()
        },
{
    let ghost s = b@.subrange(i as int, b@.len() as int);
    if i >= b.len() {
        return None;
    }
    let n = b.len() - i;
    let b0 = b[i];
    assert(s[0] == b0);
    if b0 <= 0x7f {
        let cp = (b0 & 0x7F) as u32;
        assert(cp == codepoint_width_1(b0));
        return Some((cp, 1));
    }
    if 0xc0 <= b0 && b0 <= 0xdf {
        if n < 2 {
            return None;
        }
        let b1 = b[i + 1];
        assert(s[1] == b1);
        if !(0x80 <= b1 && b1 <= 0xbf) {
            return None;
        }
        let cp = (((b0 & 0x1F) as u32) << 6) | ((b1 & 0x3F) as u32);
        assert(cp == codepoint_width_2(b0, b1));
        assert(cp == decode_first_codepoint(s));
        if cp < 0x80 {
            return None;
        }
        proof {
            assert((((b0 & 0x1F) as u32) << 6) | ((b1 & 0x3F) as u32) <= 0x7ff) by (bit_vector);
        }
        return Some((cp, 2));
    }
    if 0xe0 <= b0 && b0 <= 0xef {
        if n < 3 {
            return None;
        }
        let b1 = b[i + 1];
        let b2 = b[i + 2];
        assert(s[1] == b1 && s[2] == b2);
        if !(0x80 <= b1 && b1 <= 0xbf) || !(0x80 <= b2 && b2 <= 0xbf) {
            return None;
        }
        let cp = (((b0 & 0x0F) as u32) << 12) | (((b1 & 0x3F) as u32) << 6) | ((b2 & 0x3F) as u32);
        assert(cp == codepoint_width_3(b0, b1, b2));
        assert(cp == decode_first_codepoint(s));
        if cp < 0x800 || (0xD800 <= cp && cp <= 0xDFFF) {
            return None;
        }
        return Some((cp, 3));
    }
    if 0xf0 <= b0 && b0 <= 0xf7 {
        if n < 4 {
            return None;
        }
        let b1 = b[i + 1];
        let b2 = b[i + 2];
        let b3 = b[i + 3];
        assert(s[1] == b1 && s[2] == b2 && s[3] == b3);
        if !(0x80 <= b1 && b1 <= 0xbf) || !(0x80 <= b2 && b2 <= 0xbf) || !(0x80 <= b3 && b3 <= 0xbf) {
            return None;
        }
        let cp = (((b0 & 0x07) as u32) << 18) | (((b1 & 0x3F) as u32) << 12) | (((b2 & 0x3F) as u32)
            << 6) | ((b3 & 0x3F) as u32);
        assert(cp == codepoint_width_4(b0, b1, b2, b3));
        assert(cp == decode_first_codepoint(s));
        if cp < 0x10000 || cp > 0x10ffff {
            return None;
        }
        proof {
            assert(!(0xD800 <= cp && cp <= 0xDFFF));
        }
        return Some((cp, 4));
    }
    None
}

/// Scans the valid UTF-8 prefix of `b`: its length, and whether all its
/// scalars may stand in text.
fn scan_utf8_text(b: &[u8]) -> (r: (usize, bool))
    ensures
        r.0 == valid_prefix_len(b@),
        r.1 == prefix_scalars_text(b@),
{
    let mut i: usize = 0;
    let mut ok = true;
    assert(b@.subrange(0, b@.len() as int) =~= b@);
    while i < b.len()
        invariant
            i <= b@.len(),
            valid_prefix_len(b@) == i + valid_prefix_len(b@.subrange(i as int, b@.len() as int)),
            prefix_scalars_text(b@) == (ok && prefix_scalars_text(b@.subrange(i as int, b@.len() as int))),
        decreases b.len() - i,
    {
        let ghost s = b@.subrange(i as int, b@.len() as int);
        match first_scalar(b, i) {
            None => {
                return (i, ok);
            },
            Some((cp, w)) => {
                assert(pop_first_scalar(s) =~= b@.subrange(i + w, b@.len() as int));
                ok = ok && (cp == 9 || cp == 10 || cp == 13 || !(cp <= 0x1F || (0x7F <= cp && cp <= 0x9F)));
                i = i + w;
            },
        }
    }
    assert(b@.subrange(i as int, b@.len() as int) =~= Seq::<u8>::empty());
    (i, ok)
}

fn has_zero(b: &[u8]) -> (r: bool)
    ensures
        r == b@.contains(0u8),
{
    let mut i: usize = 0;
    while i < b.len()
        invariant
            i <= b.len(),
            forall|j: int| 0 <= j < i ==> b@[j] != 0u8,
        decreases b.len() - i,
    {
        if b[i] == 0 {
            assert(b@[i as int] == 0u8);
            return true;
        }
        i = i + 1;
    }
    false
}

/// Whether the header looks like text (see [`looks_like_text_spec`]).
pub fn looks_like_text(buf: &[u8]) -> (r: bool)
    ensures
        r == looks_like_text_spec(buf@),
{
    if buf.len() == 0 {
        return true;
    }
    let bom_le: [u8; 2] = [0xff, 0xfe];
    let bom_be: [u8; 2] = [0xfe, 0xff];
    assert(bom_le@ =~= seq![0xffu8, 0xfe]);
    assert(bom_be@ =~= seq![0xfeu8, 0xff]);
    if prefix_is(buf, &bom_le) || prefix_is(buf, &bom_be) {
        return true;
    }
    let bom8: [u8; 3] = [0xef, 0xbb, 0xbf];
    assert(bom8@ =~= seq![0xefu8, 0xbb, 0xbf]);
    let start: usize = if prefix_is(buf, &bom8) { 3 } else { 0 };
    let mut rest: Vec<u8> = Vec::new();
    let mut k = start;
    while k < buf.len()
        invariant
            start <= k <= buf@.len(),
            rest@ == buf@.subrange(start as int, k as int),
        decreases buf.len() - k,
    {
        rest.push(buf[k]);
        k = k + 1;
        assert(rest@ =~= buf@.subrange(start as int, k as int));
    }
    assert(rest@ == without_bom(buf@)) by {
        if start == 0 {
            assert(buf@.subrange(0, buf@.len() as int) =~= buf@);
        }
    }
    if has_zero(rest.as_slice()) {
        return false;
    }
    let (up, ok) = scan_utf8_text(rest.as_slice());
    if up < rest.len() && (up == 0 || rest.len() - up > 3) {
        return false;
    }
    ok
}

/// The kind of a file from its first bytes (see [`kind_of_header`]).
pub fn kind_from_header(buf: &[u8]) -> (r: FileKind)
    ensures
        r == kind_of_header(buf@),
{
    if let Some(kind) = binary_kind(buf) {
        return kind;
    }
    if looks_like_text(buf) {
        FileKind::Text
    } else {
        FileKind::Other
    }
}

} // verus!
