//! Serving media: byte ranges of a file, the headers of a (partial)
//! response, and the requests forwarded to an image proxy for thumbnails and
//! previews.

use vstd::prelude::*;
use vstd::utf8::encode_utf8;
use base64::Engine;
use crate::sandbox::{trim_leading_slashes, trim_trailing_slashes};
use crate::text::{
    append_chars, chars_of, decimal, decimal_chars, string_from_chars, sub_chars, trim, trim_chars,
    utf8_of_chars,
};

verus! {

/// Index of the first `c` in `s`, or -1.
pub open spec fn find(s: Seq<char>, c: char) -> int
    decreases s.len(),
{
    if s.len() == 0 {
        -1
    } else if find(s.drop_last(), c) >= 0 {
        find(s.drop_last(), c)
    } else if s.last() == c {
        s.len() - 1
    } else {
        -1
    }
}

proof fn lemma_find(s: Seq<char>, c: char)
    ensures
        -1 <= find(s, c) < s.len(),
        find(s, c) >= 0 ==> s[find(s, c)] == c,
        forall|j: int| 0 <= j < s.len() && (find(s, c) < 0 || j < find(s, c)) ==> s[j] != c,
    decreases s.len(),
{
    if s.len() > 0 {
        lemma_find(s.drop_last(), c);
        assert forall|j: int| 0 <= j < s.len() && (find(s, c) < 0 || j < find(s, c)) implies s[j] != c by {
            if j < s.len() - 1 {
                assert(s[j] == s.drop_last()[j]);
            }
        }
    }
}

fn find_char(s: &[char], c: char) -> (r: Option<usize>)
    ensures
        match r {
            Some(i) => find(s@, c) == i as int && i < s.len(),
            None => find(s@, c) == -1,
        },
{
    proof { lemma_find(s@, c); }
    let mut i: usize = 0;
    while i < s.len()
        invariant
            i <= s.len(),
            forall|j: int| 0 <= j < i ==> s@[j] != c,
            -1 <= find(s@, c) < s@.len(),
            find(s@, c) >= 0 ==> s@[find(s@, c)] == c,
            forall|j: int| 0 <= j < s@.len() && (find(s@, c) < 0 || j < find(s@, c)) ==> s@[j] != c,
        decreases s.len() - i,
    {
        if s[i] == c {
            return Some(i);
        }
        i = i + 1;
    }
    None
}

/// Every character is an ASCII digit.
pub open spec fn all_digits(s: Seq<char>) -> bool {
    forall|i: int| 0 <= i < s.len() ==> '0' <= #[trigger] s[i] <= '9'
}

/// The value of a string of decimal digits.
pub open spec fn digits_value(s: Seq<char>) -> int
    decreases s.len(),
{
    if s.len() == 0 {
        0
    } else {
        digits_value(s.drop_last()) * 10 + (s.last() as int - 48)
    }
}

/// `u64::from_str`: an optional `+`, then at least one digit, and a value
/// that fits.
pub open spec fn parsed_u64(s: Seq<char>) -> Option<u64> {
    let d = if s.len() > 0 && s[0] == '+' { s.drop_first() } else { s };
    if d.len() > 0 && all_digits(d) && digits_value(d) <= u64::MAX {
        Some(digits_value(d) as u64)
    } else {
        None
    }
}

proof fn lemma_digits_value_grows(s: Seq<char>, k: int)
    requires
        0 <= k <= s.len(),
        all_digits(s),
    ensures
        digits_value(s.take(k)) <= digits_value(s),
        digits_value(s.take(k)) >= 0,
    decreases s.len() - k,
{
    if k < s.len() {
        lemma_digits_value_grows(s, k + 1);
        assert(s.take(k + 1).drop_last() =~= s.take(k));
        assert('0' <= s[k] <= '9');
        assert(s.take(k + 1).last() == s[k]);
    } else {
        assert(s.take(k) =~= s);
    }
    lemma_digits_value_nonneg(s.take(k));
}

proof fn lemma_digits_value_nonneg(s: Seq<char>)
    requires
        all_digits(s),
    ensures
        digits_value(s) >= 0,
    decreases s.len(),
{
    if s.len() > 0 {
        assert(all_digits(s.drop_last())) by {
            assert forall|i: int| 0 <= i < s.drop_last().len() implies '0' <= #[trigger] s.drop_last()[i] <= '9' by {
                assert(s.drop_last()[i] == s[i]);
            }
        }
        lemma_digits_value_nonneg(s.drop_last());
        assert('0' <= s[s.len() - 1] <= '9');
    }
}

fn parse_digits(d: &[char]) -> (r: Option<u64>)
    ensures
        r == (if d@.len() > 0 && all_digits(d@) && digits_value(d@) <= u64::MAX {
            Some(digits_value(d@) as u64)
        } else {
            None::<u64>
        }),
{
    if d.len() == 0 {
        return None;
    }
    let mut v: u64 = 0;
    let mut i: usize = 0;
    assert(d@.take(0) =~= Seq::<char>::empty());
    while i < d.len()
        invariant
            i <= d.len(),
            d@.len() > 0,
            all_digits(d@.take(i as int)),
            v as int == digits_value(d@.take(i as int)),
        decreases d.len() - i,
    {
        let c = d[i];
        assert(d@.take(i + 1).drop_last() =~= d@.take(i as int));
        assert(d@.take(i + 1).last() == c);
        if !('0' <= c && c <= '9') {
            proof {
                if all_digits(d@) {
                    assert('0' <= d@[i as int] <= '9');
                }
            }
            return None;
        }
        assert(all_digits(d@.take(i + 1))) by {
            assert forall|j: int| 0 <= j < i + 1 implies '0' <= #[trigger] d@.take(i + 1)[j] <= '9' by {
                if j < i {
                    assert(d@.take(i + 1)[j] == d@.take(i as int)[j]);
                }
            }
        }
        let digit: u64 = (c as u32 - 48) as u64;
        if v > (u64::MAX - digit) / 10 {
            proof {
                assert(v * 10 + digit > u64::MAX) by (nonlinear_arith)
                    requires
                        v > (u64::MAX - digit) / 10,
                        digit <= 9,
                ;
                if all_digits(d@) {
                    lemma_digits_value_grows(d@, i + 1);
                }
            }
            return None;
        }
        assert(v * 10 + digit <= u64::MAX) by (nonlinear_arith)
            requires
                v <= (u64::MAX - digit) / 10,
                digit <= 9,
        ;
        v = v * 10 + digit;
        i = i + 1;
    }
    assert(d@.take(i as int) =~= d@);
    Some(v)
}

/// `u64::from_str` (see [`parsed_u64`]).
pub fn parse_u64(s: &[char]) -> (r: Option<u64>)
    ensures
        r == parsed_u64(s@),
{
    if s.len() > 0 && s[0] == '+' {
        let d = sub_chars(s, 1, s.len());
        assert(d@ =~= s@.drop_first());
        parse_digits(d.as_slice())
    } else {
        parse_digits(s)
    }
}

/// The byte range asked for by a `Range` header value, for a file of `len`
/// bytes: only the first range of `bytes=` is read; `-n` means the last `n`
/// bytes; `a-` and `a-b` start at `a` (inside the file) and end at `b`,
/// capped at the last byte. None for anything else.
pub open spec fn byte_range(header: Seq<char>, len: u64) -> Option<(u64, u64)> {
    let raw = trim(header);
    if !(raw.len() >= 6 && raw.subrange(0, 6) == "bytes="@) {
        None
    } else {
        let rest = raw.subrange(6, raw.len() as int);
        let comma = find(rest, ',');
        let first = trim(if comma < 0 { rest } else { rest.subrange(0, comma) });
        let dash = find(first, '-');
        if dash < 0 {
            None
        } else {
            let start_s = first.subrange(0, dash);
            let end_s = first.subrange(dash + 1, first.len() as int);
            if start_s.len() == 0 {
                match parsed_u64(end_s) {
                    None => None,
                    Some(n) => if n == 0 || len == 0 {
                        None
                    } else {
                        Some((if n >= len { 0 } else { (len - n) as u64 }, (len - 1) as u64))
                    },
                }
            } else {
                match parsed_u64(start_s) {
                    None => None,
                    Some(start) => if start >= len {
                        None
                    } else {
                        let end: Option<u64> = if end_s.len() == 0 {
                            Some((len - 1) as u64)
                        } else {
                            match parsed_u64(end_s) {
                                None => None,
                                Some(e) => Some(if e > len - 1 { (len - 1) as u64 } else { e }),
                            }
                        };
                        match end {
                            None => None,
                            Some(e) => if e < start { None } else { Some((start, e)) },
                        }
                    },
                }
            }
        }
    }
}

/// The byte range a request asks for (see [`byte_range`]); none without a
/// `Range` header. A range always lies inside the file.
pub fn parse_bytes_range(header: Option<&str>, len: u64) -> (r: Option<(u64, u64)>)
    ensures
        r == (match header {
            None => None,
            Some(h) => byte_range(h@, len),
        }),
        r matches Some((s, e)) ==> s <= e && e < len,
{
    let h = match header {
        None => return None,
        Some(h) => h,
    };
    let raw = trim_chars(chars_of(h).as_slice());
    let prefix = chars_of("bytes=");
    proof { reveal_strlit("bytes="); }
    if raw.len() < 6 || !crate::text::chars_eq(sub_chars(raw.as_slice(), 0, 6).as_slice(), prefix.as_slice()) {
        return None;
    }
    let rest = sub_chars(raw.as_slice(), 6, raw.len());
    let part = match find_char(rest.as_slice(), ',') {
        None => sub_chars(rest.as_slice(), 0, rest.len()),
        Some(k) => sub_chars(rest.as_slice(), 0, k),
    };
    assert(part@ == (if find(rest@, ',') < 0 { rest@ } else { rest@.subrange(0, find(rest@, ',')) })) by {
        if find(rest@, ',') < 0 {
            assert(part@ =~= rest@);
        }
    }
    let first = trim_chars(part.as_slice());
    let dash = match find_char(first.as_slice(), '-') {
        None => return None,
        Some(d) => d,
    };
    let start_s = sub_chars(first.as_slice(), 0, dash);
    let end_s = sub_chars(first.as_slice(), dash + 1, first.len());
    if start_s.len() == 0 {
        let n = match parse_u64(end_s.as_slice()) {
            None => return None,
            Some(n) => n,
        };
        if n == 0 || len == 0 {
            return None;
        }
        let start = len.saturating_sub(n);
        return Some((start, len - 1));
    }
    let start = match parse_u64(start_s.as_slice()) {
        None => return None,
        Some(s) => s,
    };
    if start >= len {
        return None;
    }
    let end = if end_s.len() == 0 {
        len - 1
    } else {
        match parse_u64(end_s.as_slice()) {
            None => return None,
            Some(e) => if e > len - 1 { len - 1 } else { e },
        }
    };
    if end < start {
        return None;
    }
    Some((start, end))
}

/// Status, `Content-Range` value and `Content-Length` of a response for a
/// file of `len` bytes: 206 with the range when one was asked for, else 200
/// with the whole file.
pub fn range_response(range: Option<(u64, u64)>, len: u64) -> (r: (u16, Option<String>, u64))
    requires
        range matches Some((s, e)) ==> s <= e && e < len,
    ensures
        range is None ==> r.0 == 200 && r.1 is None && r.2 == len,
        range matches Some((s, e)) ==> r.0 == 206 && r.2 == e - s + 1 && (r.1 matches Some(cr)
            && cr@ == "bytes "@ + decimal(s as nat) + seq!['-'] + decimal(e as nat) + seq!['/'] + decimal(len as nat)),
{
    match range {
        None => (200, None, len),
        Some((s, e)) => {
            let mut v = chars_of("bytes ");
            append_chars(&mut v, decimal_chars(s).as_slice());
            v.push('-');
            append_chars(&mut v, decimal_chars(e).as_slice());
            v.push('/');
            append_chars(&mut v, decimal_chars(len).as_slice());
            (206, Some(string_from_chars(v.as_slice())), e - s + 1)
        },
    }
}

/// The image proxy's base URL from its configured value: trimmed, without
/// trailing `/`; none when that leaves nothing.
pub open spec fn proxy_base(raw: Seq<char>) -> Option<Seq<char>> {
    let b = trim_trailing_slashes(trim(raw));
    if b.len() == 0 {
        None
    } else {
        Some(b)
    }
}

/// The image proxy's base URL (see [`proxy_base`]); none when unset.
pub fn imgproxy_base(raw: Option<&str>) -> (r: Option<String>)
    ensures
        r matches Some(b) ==> raw matches Some(x) && proxy_base(x@) == Some(b@),
        r is None ==> raw is None || proxy_base(raw->0@) is None,
{
    let raw = match raw {
        None => return None,
        Some(x) => x,
    };
    let t = trim_chars(chars_of(raw).as_slice());
    let mut b: usize = t.len();
    assert(t@.subrange(0, t@.len() as int) =~= t@);
    while b > 0 && t[b - 1] == '/'
        invariant
            b <= t.len(),
            trim_trailing_slashes(t@) == trim_trailing_slashes(t@.subrange(0, b as int)),
        decreases b,
    {
        assert(t@.subrange(0, b as int).drop_last() =~= t@.subrange(0, b - 1));
        b = b - 1;
    }
    let base = sub_chars(t.as_slice(), 0, b);
    if base.len() == 0 {
        None
    } else {
        Some(string_from_chars(base.as_slice()))
    }
}

/// A character of the URL-safe base64 alphabet (RFC 4648, section 5) for
/// a 6-bit value: `A`-`Z`, `a`-`z`, `0`-`9`, `-`, `_`.
pub open spec fn base64_url_char(v: int) -> char {
    if v < 26 {
        (65 + v) as char
    } else if v < 52 {
        (97 + (v - 26)) as char
    } else if v < 62 {
        (48 + (v - 52)) as char
    } else if v == 62 {
        '-'
    } else {
        '_'
    }
}

/// URL-safe base64 without padding: each group of three bytes as four
/// characters of 6 bits each; a last group of one byte as two characters,
/// of two bytes as three (the missing bits zero).
pub open spec fn base64_url(b: Seq<u8>) -> Seq<char>
    decreases b.len(),
{
    if b.len() == 0 {
        Seq::empty()
    } else if b.len() == 1 {
        seq![base64_url_char(b[0] as int / 4), base64_url_char((b[0] as int % 4) * 16)]
    } else if b.len() == 2 {
        seq![
            base64_url_char(b[0] as int / 4),
            base64_url_char((b[0] as int % 4) * 16 + b[1] as int / 16),
            base64_url_char((b[1] as int % 16) * 4),
        ]
    } else {
        seq![
            base64_url_char(b[0] as int / 4),
            base64_url_char((b[0] as int % 4) * 16 + b[1] as int / 16),
            base64_url_char((b[1] as int % 16) * 4 + b[2] as int / 64),
            base64_url_char(b[2] as int % 64),
        ] + base64_url(b.subrange(3, b.len() as int))
    }
}

/// `URL_SAFE_NO_PAD.encode` of the `base64` crate: the bytes in URL-safe
/// base64 without padding (see [`base64_url`]).
#[verifier::external_body]
fn encode_base64_url(b: &[u8]) -> (r: String)
    requires
        b@.len() <= usize::MAX / 2,
    ensures
        r@ == base64_url(b@),
{
    base64::engine::general_purpose::URL_SAFE_NO_PAD.encode(b)
}

/// Processing options for thumbnails.
pub fn thumb_processing() -> (r: &'static str)
    ensures
        r@ == "rs:fill:184:128:0/g:ce/q:70/f:webp"@,
{
    "rs:fill:184:128:0/g:ce/q:70/f:webp"
}

/// Processing options for previews.
pub fn preview_processing() -> (r: &'static str)
    ensures
        r@ == "rs:fit:1920:1920:0/q:80/f:webp"@,
{
    "rs:fit:1920:1920:0/q:80/f:webp"
}

/// The source the proxy reads a file from: `local:///` and the relative
/// path without its leading `/`.
pub open spec fn proxy_source(rel: Seq<char>) -> Seq<char> {
    "local:///"@ + trim_leading_slashes(rel)
}

/// The proxy URL for an already encoded source.
pub open spec fn proxy_url(base: Seq<char>, processing: Seq<char>, encoded: Seq<char>) -> Seq<char> {
    base + "/insecure/"@ + processing + seq!['/'] + encoded
}

/// `base/insecure/processing/encoded`.
pub fn proxy_url_from(base: &str, processing: &str, encoded: &str) -> (r: String)
    ensures
        r@ == proxy_url(base@, processing@, encoded@),
{
    let mut v = chars_of(base);
    append_chars(&mut v, chars_of("/insecure/").as_slice());
    append_chars(&mut v, chars_of(processing).as_slice());
    v.push('/');
    append_chars(&mut v, chars_of(encoded).as_slice());
    string_from_chars(v.as_slice())
}

/// The URL at which the proxy serves `rel` with the given processing: the
/// source (see [`proxy_source`]) encoded as URL-safe base64.
pub fn imgproxy_fetch_url(base: &str, rel: &str, processing: &str) -> (r: String)
    requires
        rel@.len() <= usize::MAX / 16,
    ensures
        r@ == proxy_url(base@, processing@, base64_url(encode_utf8(proxy_source(rel@)))),
{
    let r = chars_of(rel);
    let mut a: usize = 0;
    assert(r@.subrange(0, r@.len() as int) =~= r@);
    while a < r.len() && r[a] == '/'
        invariant
            a <= r.len(),
            trim_leading_slashes(r@) == trim_leading_slashes(r@.subrange(a as int, r@.len() as int)),
        decreases r.len() - a,
    {
        assert(r@.subrange(a as int, r@.len() as int).drop_first() =~= r@.subrange(a + 1, r@.len() as int));
        a = a + 1;
    }
    let mut src = chars_of("local:///");
    append_chars(&mut src, sub_chars(r.as_slice(), a, r.len()).as_slice());
    assert(src@ == proxy_source(rel@));
    let bytes = utf8_of_chars(src.as_slice());
    proof {
        reveal_strlit("local:///");
        crate::text::lemma_utf8_len_bound(src@);
        assert(src@.len() <= 9 + rel@.len());
    }
    let encoded = encode_base64_url(bytes.as_slice());
    proxy_url_from(base, processing, encoded.as_str())
}

/// What a thumbnail or preview request does.
#[derive(Debug, PartialEq, Eq)]
pub enum ProxyPlan {
    /// No proxy is configured: the original file is served.
    ServeOriginal,
    /// The file does not resolve to a file below the root.
    NotFound,
    /// The file is fetched from the proxy at this URL.
    Fetch(String),
}

/// What a proxied request does, given the proxy's base URL (if configured)
/// and the relative path of the resolved file (none when it did not resolve
/// to a file).
pub fn imgproxy_plan(base: Option<&str>, file_rel: Option<&str>, processing: &str) -> (r: ProxyPlan)
    requires
        file_rel matches Some(f) ==> f@.len() <= usize::MAX / 16,
    ensures
        base is None ==> r == ProxyPlan::ServeOriginal,
        base is Some && (file_rel is None || file_rel->0@.len() == 0) ==> r == ProxyPlan::NotFound,
        base is Some && file_rel is Some && file_rel->0@.len() > 0 ==> (r matches ProxyPlan::Fetch(u)
            && u@ == proxy_url(base->0@, processing@, base64_url(encode_utf8(proxy_source(file_rel->0@))))),
{
    let b = match base {
        None => return ProxyPlan::ServeOriginal,
        Some(b) => b,
    };
    match file_rel {
        None => ProxyPlan::NotFound,
        Some(f) => {
            if f.is_empty() {
                ProxyPlan::NotFound
            } else {
                ProxyPlan::Fetch(imgproxy_fetch_url(b, f, processing))
            }
        },
    }
}

/// The `Cache-Control` of a proxied response: the proxy's own, else a
/// short private caching.
pub fn proxy_cache_control(upstream: Option<String>) -> (r: String)
    ensures
        upstream matches Some(u) ==> r@ == u@,
        upstream is None ==> r@ == "private, max-age=120"@,
{
    match upstream {
        Some(u) => u,
        None => "private, max-age=120".to_owned(),
    }
}

} // verus!
