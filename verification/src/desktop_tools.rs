//! The desktop tool package: argument records, their defaults and limits, and
//! the text handling the tools share (slugs, percent-encoding, truncation,
//! extension filters, the project-check allow-list, note bodies).
//!
//! File system walks, subprocesses and HTTP calls are made by the host; the
//! functions here decide what to ask for and shape what came back.

use crate::tools::clamp;
use crate::text::{
    ascii_lower, chars_of, contains_seq, decimal, decimal_chars, is_space, starts_with,
    strip_leading, strip_leading_chars, strip_trailing, strip_trailing_chars, string_from,
    to_ascii_lower, to_lowercase, trim, trim_chars, unicode_lowercase,
};
use vstd::prelude::*;
use vstd::string::*;
use vstd::utf8::encode_utf8;

verus! {

/// The Unicode `Alphabetic` or `Numeric` property of a non-ASCII character,
/// as `char::is_alphanumeric` reports it.
pub uninterp spec fn unicode_alphanumeric(c: char) -> bool;

/// Letters and digits as `char::is_alphanumeric` defines them: among ASCII
/// characters exactly `0-9`, `A-Z` and `a-z`.
pub open spec fn is_alnum(c: char) -> bool {
    if (c as u32) < 128 {
        ('0' <= c && c <= '9') || ('A' <= c && c <= 'Z') || ('a' <= c && c <= 'z')
    } else {
        unicode_alphanumeric(c)
    }
}

/// `char::is_alphanumeric`: true for characters with the Unicode
/// `Alphabetic` or `Numeric` property. Among ASCII characters these are the
/// letters and the digits; beyond ASCII the property is named, not listed.
#[verifier::external_body]
pub(crate) fn is_alphanumeric(c: char) -> (b: bool)
    ensures
        b == is_alnum(c),
        (c as u32) >= 128 ==> b == unicode_alphanumeric(c),
{
    c.is_alphanumeric()
}

/// The slug built so far from `s`, and whether it ends in a dash that
/// stands for a run of other characters.
pub open spec fn slug_state(s: Seq<char>) -> (Seq<char>, bool)
    decreases s.len(),
{
    if s.len() == 0 {
        (Seq::empty(), false)
    } else {
        let prev = slug_state(s.drop_last());
        let c = s.last();
        if is_alnum(c) {
            (prev.0.push(ascii_lower(c)), false)
        } else if !prev.1 {
            (prev.0.push('-'), true)
        } else {
            prev
        }
    }
}

/// The file-name slug of a title: letters and digits kept (ASCII lower-cased),
/// every run of other characters one dash, no dash at either end, and `note`
/// when nothing is left.
pub open spec fn slug(s: Seq<char>) -> Seq<char> {
    let t = strip_trailing(strip_leading(slug_state(s).0, '-'), '-');
    if t.len() == 0 {
        seq!['n', 'o', 't', 'e']
    } else {
        t
    }
}

/// Every character of `w` is a dash or a letter or digit that lower-casing
/// leaves alone, and no two dashes are adjacent.
pub open spec fn slug_shaped(w: Seq<char>) -> bool {
    &&& forall|i: int|
        0 <= i < w.len() ==> #[trigger] w[i] == '-' || (is_alnum(w[i]) && ascii_lower(w[i]) == w[i])
    &&& forall|i: int| 0 <= i < w.len() - 1 ==> !(#[trigger] w[i] == '-' && w[i + 1] == '-')
}

proof fn lemma_slug_state_shaped(s: Seq<char>)
    ensures
        slug_shaped(slug_state(s).0),
        slug_state(s).1 == (slug_state(s).0.len() > 0 && slug_state(s).0.last() == '-'),
    decreases s.len(),
{
    if s.len() > 0 {
        lemma_slug_state_shaped(s.drop_last());
        let prev = slug_state(s.drop_last());
        let c = s.last();
        if is_alnum(c) {
            let o = prev.0.push(ascii_lower(c));
            assert(is_alnum(ascii_lower(c)) && ascii_lower(ascii_lower(c)) == ascii_lower(c));
            assert forall|i: int| 0 <= i < o.len() implies #[trigger] o[i] == '-' || (is_alnum(o[i])
                && ascii_lower(o[i]) == o[i]) by {
                if i < prev.0.len() {
                    assert(o[i] == prev.0[i]);
                }
            }
            assert forall|i: int| 0 <= i < o.len() - 1 implies !(#[trigger] o[i] == '-' && o[i + 1]
                == '-') by {
                assert(o[i] == prev.0[i]);
                if i + 1 < prev.0.len() {
                    assert(o[i + 1] == prev.0[i + 1]);
                }
            }
        } else if !prev.1 {
            let o = prev.0.push('-');
            assert forall|i: int| 0 <= i < o.len() implies #[trigger] o[i] == '-' || (is_alnum(o[i])
                && ascii_lower(o[i]) == o[i]) by {
                if i < prev.0.len() {
                    assert(o[i] == prev.0[i]);
                }
            }
            assert forall|i: int| 0 <= i < o.len() - 1 implies !(#[trigger] o[i] == '-' && o[i + 1]
                == '-') by {
                assert(o[i] == prev.0[i]);
                if i + 1 < prev.0.len() {
                    assert(o[i + 1] == prev.0[i + 1]);
                }
            }
        }
    }
}

proof fn lemma_slug_state_fixed(w: Seq<char>)
    requires
        slug_shaped(w),
    ensures
        slug_state(w) == (w, w.len() > 0 && w.last() == '-'),
    decreases w.len(),
{
    if w.len() > 0 {
        let p = w.drop_last();
        assert forall|i: int| 0 <= i < p.len() implies #[trigger] p[i] == '-' || (is_alnum(p[i])
            && ascii_lower(p[i]) == p[i]) by {
            assert(p[i] == w[i]);
        }
        assert forall|i: int| 0 <= i < p.len() - 1 implies !(#[trigger] p[i] == '-' && p[i + 1]
            == '-') by {
            assert(p[i] == w[i] && p[i + 1] == w[i + 1]);
        }
        lemma_slug_state_fixed(p);
        let c = w.last();
        assert(w[w.len() - 1] == c);
        if c == '-' {
            assert(!is_alnum('-'));
            if p.len() > 0 {
                assert(w[w.len() - 2] == p.last());
                assert(!(w[w.len() - 2] == '-' && w[w.len() - 1] == '-'));
            }
            assert(p.push('-') =~= w);
        } else {
            assert(p.push(c) =~= w);
        }
    }
}

proof fn lemma_strip_leading_suffix(w: Seq<char>, c: char) -> (k: int)
    ensures
        0 <= k <= w.len(),
        strip_leading(w, c) == w.subrange(k, w.len() as int),
        k == w.len() || w[k] != c,
    decreases w.len(),
{
    if w.len() > 0 && w[0] == c {
        let k = lemma_strip_leading_suffix(w.drop_first(), c);
        assert(w.drop_first().subrange(k, w.drop_first().len() as int) =~= w.subrange(
            k + 1,
            w.len() as int,
        ));
        if k + 1 < w.len() {
            assert(w[k + 1] == w.drop_first()[k]);
        }
        k + 1
    } else {
        assert(w.subrange(0, w.len() as int) =~= w);
        0
    }
}

proof fn lemma_strip_trailing_prefix(w: Seq<char>, c: char) -> (j: int)
    ensures
        0 <= j <= w.len(),
        strip_trailing(w, c) == w.subrange(0, j),
        j == 0 || w[j - 1] != c,
    decreases w.len(),
{
    if w.len() > 0 && w.last() == c {
        let j = lemma_strip_trailing_prefix(w.drop_last(), c);
        assert(w.drop_last().subrange(0, j) =~= w.subrange(0, j));
        if j > 0 {
            assert(w[j - 1] == w.drop_last()[j - 1]);
        }
        j
    } else {
        assert(w.subrange(0, w.len() as int) =~= w);
        w.len() as int
    }
}

proof fn lemma_shaped_subrange(w: Seq<char>, a: int, b: int)
    requires
        slug_shaped(w),
        0 <= a <= b <= w.len(),
    ensures
        slug_shaped(w.subrange(a, b)),
{
    let v = w.subrange(a, b);
    assert forall|i: int| 0 <= i < v.len() implies #[trigger] v[i] == '-' || (is_alnum(v[i])
        && ascii_lower(v[i]) == v[i]) by {
        assert(v[i] == w[a + i]);
    }
    assert forall|i: int| 0 <= i < v.len() - 1 implies !(#[trigger] v[i] == '-' && v[i + 1]
        == '-') by {
        assert(v[i] == w[a + i] && v[i + 1] == w[a + i + 1]);
    }
}

/// A slug is never empty, never starts or ends with a dash, holds no two
/// dashes in a row, and making a slug of it again changes nothing.
pub proof fn lemma_slug_shape(s: Seq<char>)
    ensures
        slug(s).len() > 0,
        slug(s)[0] != '-',
        slug(s).last() != '-',
        slug_shaped(slug(s)),
        slug(slug(s)) == slug(s),
{
    lemma_slug_state_shaped(s);
    let o = slug_state(s).0;
    let k = lemma_strip_leading_suffix(o, '-');
    let l = strip_leading(o, '-');
    lemma_shaped_subrange(o, k, o.len() as int);
    let j = lemma_strip_trailing_prefix(l, '-');
    let t = strip_trailing(l, '-');
    lemma_shaped_subrange(l, 0, j);
    let t2 = slug(s);
    if t.len() == 0 {
        assert(t2 == seq!['n', 'o', 't', 'e']);
        assert(slug_shaped(t2)) by {
            assert forall|i: int| 0 <= i < t2.len() implies #[trigger] t2[i] == '-' || (is_alnum(
                t2[i],
            ) && ascii_lower(t2[i]) == t2[i]) by {}
        }
    } else {
        assert(t2 == t);
        assert(t[0] == l[0]);
        assert(l[0] == o[k]);
        assert(t.last() == l[j - 1]);
    }
    lemma_slug_state_fixed(t2);
    assert(!(t2.len() > 0 && t2.last() == '-'));
    assert(strip_leading(t2, '-') == t2);
    assert(strip_trailing(t2, '-') == t2);
}

/// The slug of `value` (see [`slug`]).
pub fn slugify(value: &str) -> (r: String)
    ensures
        r@ == slug(value@),
{
    let v = chars_of(value);
    let mut out: Vec<char> = Vec::new();
    let mut prev_dash = false;
    let mut i: usize = 0;
    while i < v.len()
        invariant
            i <= v.len(),
            (out@, prev_dash) == slug_state(v@.subrange(0, i as int)),
        decreases v.len() - i,
    {
        let ch = v[i];
        proof {
            assert(v@.subrange(0, i + 1).drop_last() =~= v@.subrange(0, i as int));
            assert(v@.subrange(0, i + 1).last() == ch);
        }
        if is_alphanumeric(ch) {
            out.push(to_ascii_lower(ch));
            prev_dash = false;
        } else if !prev_dash {
            out.push('-');
            prev_dash = true;
        }
        i = i + 1;
    }
    assert(v@.subrange(0, v.len() as int) =~= v@);
    let lead = strip_leading_chars(&out, '-');
    let t = strip_trailing_chars(&lead, '-');
    if t.len() == 0 {
        let mut n: Vec<char> = Vec::new();
        n.push('n');
        n.push('o');
        n.push('t');
        n.push('e');
        assert(n@ =~= seq!['n', 'o', 't', 'e']);
        string_from(n.as_slice())
    } else {
        string_from(t.as_slice())
    }
}

/// A hidden entry's name: it starts with a dot.
pub open spec fn hidden_name(name: Seq<char>) -> bool {
    name.len() > 0 && name[0] == '.'
}

/// Whether a file or directory name marks a hidden entry (a leading `.`);
/// the search skips such entries unless asked to include them.
pub fn is_hidden_name(name: &str) -> (r: bool)
    ensures
        r == hidden_name(name@),
{
    let v = chars_of(name);
    v.len() > 0 && v[0] == '.'
}

/// Bytes that stay as they are in a query component: ASCII letters, digits
/// and `-._~`.
pub open spec fn unreserved(b: u8) -> bool {
    (65 <= b && b <= 90) || (97 <= b && b <= 122) || (48 <= b && b <= 57) || b == 45 || b == 46
        || b == 95 || b == 126
}

/// The upper-case hex digit for a value below 16.
pub open spec fn upper_hex_digit(d: int) -> char {
    if d < 10 {
        (('0' as int) + d) as char
    } else {
        (('A' as int) + d - 10) as char
    }
}

/// How one byte is written: unreserved bytes as themselves, a space as `%20`,
/// any other byte as `%` and two upper-case hex digits.
pub open spec fn encode_byte(b: u8) -> Seq<char> {
    if unreserved(b) {
        seq![(b as u32) as char]
    } else if b == 32 {
        seq!['%', '2', '0']
    } else {
        seq!['%', upper_hex_digit((b / 16) as int), upper_hex_digit((b % 16) as int)]
    }
}

/// The percent-encoding of a byte string.
pub open spec fn percent_encoded(bs: Seq<u8>) -> Seq<char>
    decreases bs.len(),
{
    if bs.len() == 0 {
        Seq::empty()
    } else {
        percent_encoded(bs.drop_last()) + encode_byte(bs.last())
    }
}

/// Characters that may appear in a percent-encoded text: ASCII letters,
/// digits, `-._~` and `%`.
pub open spec fn url_safe(c: char) -> bool {
    ('A' <= c && c <= 'Z') || ('a' <= c && c <= 'z') || ('0' <= c && c <= '9') || c == '-' || c
        == '.' || c == '_' || c == '~' || c == '%'
}

/// Percent-encoding leaves nothing in the text but URL-safe characters, and
/// every `%` is followed by two upper-case hex digits.
pub proof fn lemma_percent_encoded_url_safe(bs: Seq<u8>)
    ensures
        forall|i: int| 0 <= i < percent_encoded(bs).len() ==> url_safe(#[trigger] percent_encoded(bs)[i]),
        forall|i: int|
            0 <= i < percent_encoded(bs).len() && #[trigger] percent_encoded(bs)[i] == '%' ==> i + 2
                < percent_encoded(bs).len() && ('0' <= percent_encoded(bs)[i + 1] <= '9' || 'A'
                <= percent_encoded(bs)[i + 1] <= 'F') && ('0' <= percent_encoded(bs)[i + 2] <= '9'
                || 'A' <= percent_encoded(bs)[i + 2] <= 'F'),
    decreases bs.len(),
{
    if bs.len() > 0 {
        lemma_percent_encoded_url_safe(bs.drop_last());
        let p = percent_encoded(bs.drop_last());
        let b = bs.last();
        let e = encode_byte(b);
        let r = percent_encoded(bs);
        assert(r == p + e);
        assert forall|i: int| 0 <= i < r.len() implies url_safe(#[trigger] r[i]) by {
            if i < p.len() {
                assert(r[i] == p[i]);
            } else {
                assert(r[i] == e[i - p.len()]);
            }
        }
        assert forall|i: int|
            0 <= i < r.len() && #[trigger] r[i] == '%' implies i + 2 < r.len() && ('0' <= r[i + 1]
                <= '9' || 'A' <= r[i + 1] <= 'F') && ('0' <= r[i + 2] <= '9' || 'A' <= r[i + 2]
                <= 'F') by {
            if i < p.len() {
                assert(r[i] == p[i]);
                assert(p[i] == '%');
                assert(r[i + 1] == p[i + 1] && r[i + 2] == p[i + 2]);
            } else {
                assert(r[i] == e[i - p.len()]);
                assert(i == p.len());
                assert(r[i + 1] == e[1] && r[i + 2] == e[2]);
            }
        }
    }
}

/// The value of a hex digit as percent-encoding writes it (`0`-`9`, `A`-`F`).
pub open spec fn hex_value(c: char) -> int {
    if '0' <= c && c <= '9' {
        c as int - '0' as int
    } else {
        c as int - 'A' as int + 10
    }
}

/// Percent-decoding: `%` and two hex digits stand for the byte they spell,
/// any other character for its own code.
pub open spec fn percent_decoded(cs: Seq<char>) -> Seq<u8>
    decreases cs.len(),
{
    if cs.len() == 0 {
        Seq::empty()
    } else if cs[0] == '%' && cs.len() >= 3 {
        seq![(hex_value(cs[1]) * 16 + hex_value(cs[2])) as u8] + percent_decoded(
            cs.subrange(3, cs.len() as int),
        )
    } else {
        seq![(cs[0] as u32) as u8] + percent_decoded(cs.drop_first())
    }
}

/// How many characters the encoding of `bs` takes: one per unreserved byte,
/// three per other byte.
pub open spec fn encoded_len(bs: Seq<u8>) -> int
    decreases bs.len(),
{
    if bs.len() == 0 {
        0
    } else {
        encoded_len(bs.drop_last()) + if unreserved(bs.last()) {
            1int
        } else {
            3int
        }
    }
}

proof fn lemma_encoded_concat(a: Seq<u8>, b: Seq<u8>)
    ensures
        percent_encoded(a + b) == percent_encoded(a) + percent_encoded(b),
    decreases b.len(),
{
    if b.len() == 0 {
        assert(a + b =~= a);
    } else {
        lemma_encoded_concat(a, b.drop_last());
        assert((a + b).drop_last() =~= a + b.drop_last());
        assert((a + b).last() == b.last());
    }
}

proof fn lemma_hex_digit_value(d: int)
    requires
        0 <= d < 16,
    ensures
        hex_value(upper_hex_digit(d)) == d,
        upper_hex_digit(d) != '%',
{
}

proof fn lemma_decode_byte(b: u8, rest: Seq<char>)
    ensures
        percent_decoded(encode_byte(b) + rest) == seq![b] + percent_decoded(rest),
{
    let e = encode_byte(b);
    let s = e + rest;
    if unreserved(b) {
        assert(s[0] == (b as u32) as char);
        assert(s.drop_first() =~= rest);
    } else if b == 32 {
        assert(s[0] == '%' && s[1] == '2' && s[2] == '0');
        assert(s.subrange(3, s.len() as int) =~= rest);
    } else {
        lemma_hex_digit_value((b / 16) as int);
        lemma_hex_digit_value((b % 16) as int);
        assert(s[0] == '%');
        assert(s[1] == upper_hex_digit((b / 16) as int));
        assert(s[2] == upper_hex_digit((b % 16) as int));
        assert(s.subrange(3, s.len() as int) =~= rest);
    }
}

/// Percent-encoding loses nothing: decoding the text gives back the bytes,
/// and it takes one character per unreserved byte and three per other byte.
pub proof fn lemma_percent_round_trip(bs: Seq<u8>)
    ensures
        percent_decoded(percent_encoded(bs)) == bs,
        percent_encoded(bs).len() == encoded_len(bs),
    decreases bs.len(),
{
    if bs.len() > 0 {
        let rest = bs.drop_first();
        lemma_percent_round_trip(rest);
        lemma_percent_round_trip(bs.drop_last());
        assert(bs =~= seq![bs[0]] + rest);
        lemma_encoded_concat(seq![bs[0]], rest);
        let one = seq![bs[0]];
        assert(one.drop_last() =~= Seq::<u8>::empty());
        assert(one.last() == bs[0]);
        assert(percent_encoded(one.drop_last()) == Seq::<char>::empty());
        assert(Seq::<char>::empty() + encode_byte(bs[0]) =~= encode_byte(bs[0]));
        assert(percent_encoded(one) == encode_byte(bs[0]));
        lemma_decode_byte(bs[0], percent_encoded(rest));
        assert(seq![bs[0]] + rest =~= bs);
    }
}

fn upper_hex_char(d: u8) -> (c: char)
    requires
        d < 16,
    ensures
        c == upper_hex_digit(d as int),
{
    let b: u8 = if d < 10 {
        48 + d
    } else {
        55 + d
    };
    b as char
}

/// `value`'s UTF-8 bytes percent-encoded for a URL query or path segment.
pub fn url_encode(value: &str) -> (r: String)
    ensures
        r@ == percent_encoded(encode_utf8(value@)),
{
    let bytes = value.as_bytes();
    let mut out: Vec<char> = Vec::new();
    let mut i: usize = 0;
    while i < bytes.len()
        invariant
            i <= bytes.len(),
            bytes@ == encode_utf8(value@),
            out@ == percent_encoded(bytes@.subrange(0, i as int)),
        decreases bytes.len() - i,
    {
        let b = bytes[i];
        let ghost before = out@;
        if (65 <= b && b <= 90) || (97 <= b && b <= 122) || (48 <= b && b <= 57) || b == 45 || b
            == 46 || b == 95 || b == 126 {
            out.push(b as char);
        } else if b == 32 {
            out.push('%');
            out.push('2');
            out.push('0');
        } else {
            out.push('%');
            out.push(upper_hex_char(b / 16));
            out.push(upper_hex_char(b % 16));
        }
        proof {
            let s = bytes@.subrange(0, i + 1);
            assert(s.drop_last() =~= bytes@.subrange(0, i as int));
            assert(s.last() == b);
            assert(out@ =~= before + encode_byte(b));
        }
        i = i + 1;
    }
    assert(bytes@.subrange(0, bytes.len() as int) =~= bytes@);
    string_from(out.as_slice())
}

/// The marker appended to text that was cut short.
pub open spec fn truncation_marker() -> Seq<char> {
    "\n...[truncated]"@
}

/// `s` cut to its first `max` characters, with the truncation marker after
/// it, when it is longer than that.
pub open spec fn truncated(s: Seq<char>, max: nat) -> Seq<char> {
    if s.len() <= max {
        s
    } else {
        s.subrange(0, max as int) + truncation_marker()
    }
}

/// `value` limited to `max` characters (see [`truncated`]).
pub fn truncate_chars(value: &str, max: usize) -> (r: String)
    ensures
        r@ == truncated(value@, max as nat),
{
    let v = chars_of(value);
    if v.len() <= max {
        return string_from(v.as_slice());
    }
    let head = crate::text::slice_chars(&v, 0, max);
    let mut out = string_from(head.as_slice());
    out.append("\n...[truncated]");
    out
}

/// An extension filter entry: trimmed, leading dots dropped, lower-cased.
pub open spec fn normalized_extension(s: Seq<char>) -> Seq<char> {
    unicode_lowercase(strip_leading(trim(s), '.'))
}

/// The non-empty normalized forms of `values`, in order.
pub open spec fn normalized_extensions(values: Seq<String>) -> Seq<Seq<char>>
    decreases values.len(),
{
    if values.len() == 0 {
        Seq::empty()
    } else {
        let e = normalized_extension(values.last()@);
        normalized_extensions(values.drop_last()) + if e.len() == 0 {
            Seq::empty()
        } else {
            seq![e]
        }
    }
}

/// The extension filter a search uses (see [`normalized_extensions`]).
pub fn normalize_extensions(values: Vec<String>) -> (r: Vec<String>)
    ensures
        r@.map_values(|s: String| s@) == normalized_extensions(values@),
{
    let mut r: Vec<String> = Vec::new();
    let mut i: usize = 0;
    while i < values.len()
        invariant
            i <= values.len(),
            r@.map_values(|s: String| s@) == normalized_extensions(values@.subrange(0, i as int)),
        decreases values.len() - i,
    {
        let trimmed = trim_chars(&chars_of(values[i].as_str()));
        let stripped = strip_leading_chars(&trimmed, '.');
        let e = to_lowercase(string_from(stripped.as_slice()).as_str());
        let ghost before = r@.map_values(|s: String| s@);
        proof {
            let s = values@.subrange(0, i + 1);
            assert(s.drop_last() =~= values@.subrange(0, i as int));
            assert(s.last() == values@[i as int]);
        }
        if chars_of(e.as_str()).len() != 0 {
            r.push(e);
            assert(r@.map_values(|s: String| s@) =~= before + seq![e@]);
        } else {
            assert(r@.map_values(|s: String| s@) =~= before + Seq::<Seq<char>>::empty());
        }
        i = i + 1;
    }
    assert(values@.subrange(0, values.len() as int) =~= values@);
    r
}

/// Whether a file extension passes the filter: it is present and its
/// lower-case form is one of `exts`.
pub open spec fn extension_allowed(ext: Option<Seq<char>>, exts: Seq<Seq<char>>) -> bool {
    match ext {
        None => false,
        Some(e) => exts.contains(unicode_lowercase(e)),
    }
}

/// The characters of an optional string slice.
pub open spec fn ext_view(ext: Option<&str>) -> Option<Seq<char>> {
    match ext {
        Some(e) => Some(e@),
        None => None,
    }
}

/// Whether a file with extension `ext` (`Path::extension`) passes the
/// extension filter `exts`.
pub fn extension_matches(ext: Option<&str>, exts: &Vec<String>) -> (r: bool)
    ensures
        r == extension_allowed(ext_view(ext), exts@.map_values(|s: String| s@)),
{
    let e = match ext {
        None => {
            return false;
        },
        Some(e) => e,
    };
    let lower = chars_of(to_lowercase(e).as_str());
    let ghost all = exts@.map_values(|s: String| s@);
    let mut i: usize = 0;
    while i < exts.len()
        invariant
            i <= exts.len(),
            all == exts@.map_values(|s: String| s@),
            lower@ == unicode_lowercase(e@),
            ext_view(ext) == Some(e@),
            forall|j: int| 0 <= j < i ==> all[j] != lower@,
        decreases exts.len() - i,
    {
        let item = chars_of(exts[i].as_str());
        if crate::text::chars_eq(&item, &lower) {
            assert(all[i as int] == lower@);
            assert(all.contains(lower@));
            return true;
        }
        i = i + 1;
    }
    proof {
        if all.contains(lower@) {
            let j = choose|j: int| 0 <= j < all.len() && all[j] == lower@;
            assert(all[j] != lower@);
        }
    }
    false
}

/// `v` limited to `lo..=hi`.
pub fn clamp_usize(v: usize, lo: usize, hi: usize) -> (r: usize)
    requires
        lo <= hi,
    ensures
        r == clamp(v as int, lo as int, hi as int),
{
    if v < lo {
        lo
    } else if v > hi {
        hi
    } else {
        v
    }
}

/// `v` limited to `lo..=hi`.
pub fn clamp_u64(v: u64, lo: u64, hi: u64) -> (r: u64)
    requires
        lo <= hi,
    ensures
        r == clamp(v as int, lo as int, hi as int),
{
    if v < lo {
        lo
    } else if v > hi {
        hi
    } else {
        v
    }
}

/// The value of an optional setting, or its default.
pub open spec fn or_default<T>(o: Option<T>, d: T) -> T {
    match o {
        Some(v) => v,
        None => d,
    }
}

/// Most matches a search reports.
pub const MAX_SEARCH_RESULTS: usize = 100;

/// Most directory entries a search visits.
pub const MAX_SEARCH_VISITED: usize = 20000;

/// Largest file a content search reads by default.
pub const DEFAULT_SEARCH_FILE_BYTES: u64 = 262144;

/// Largest text a tool reads from one file.
pub const MAX_TEXT_BYTES: u64 = 1048576;

/// Text read by default.
pub const DEFAULT_TEXT_BYTES: u64 = 65536;

/// Lines shown by default.
pub const DEFAULT_TEXT_LINES: usize = 300;

/// Most lines shown.
pub const MAX_TEXT_LINES: usize = 2000;

/// Longest command output kept.
pub const MAX_COMMAND_OUTPUT_CHARS: usize = 20000;

/// Longest system log text kept.
pub const MAX_LOG_CHARS: usize = 20000;

/// Longest clipboard text kept.
pub const MAX_CLIPBOARD_CHARS: usize = 20000;

/// Largest note body accepted, in bytes.
pub const MAX_NOTE_BYTES: u64 = 262144;

/// Longest snippet a content match shows.
pub const SNIPPET_CHARS: usize = 220;

/// The error for a path argument that is blank.
pub open spec fn empty_path_message() -> Seq<char> {
    "path must not be empty"@
}

/// The path a tool is asked to look at, trimmed; an error when it is blank.
pub fn path_to_open(path: &str) -> (r: Result<String, String>)
    ensures
        trim(path@).len() == 0 ==> (r matches Err(m) && m@ == empty_path_message()),
        trim(path@).len() > 0 ==> (r matches Ok(p) && p@ == trim(path@)),
{
    let t = trim_chars(&chars_of(path));
    if t.len() == 0 {
        Err(String::from_str("path must not be empty"))
    } else {
        Ok(string_from(t.as_slice()))
    }
}

/// Arguments of `search_files`.
#[derive(Debug)]
pub struct SearchFilesArgs {
    pub path: String,
    pub query: String,
    pub search_content: Option<bool>,
    pub include_hidden: Option<bool>,
    pub max_results: Option<usize>,
    pub max_file_bytes: Option<u64>,
    pub file_extensions: Option<Vec<String>>,
}

/// A search with its defaults filled in and its limits applied.
#[derive(Debug)]
pub struct SearchPlan {
    /// The trimmed query, as reported back.
    pub query: String,
    /// The lower-cased query names and contents are matched against.
    pub query_lc: String,
    pub include_hidden: bool,
    pub search_content: bool,
    pub max_results: usize,
    pub max_file_bytes: u64,
    pub extensions: Option<Vec<String>>,
}

impl SearchPlan {
    /// How `args` is searched: query trimmed (an error when blank) and
    /// lower-cased, 30 results by default within 1..=100, 256 KiB files by
    /// default within 1 KiB..=1 MiB, hidden entries and contents skipped
    /// unless asked for, extensions normalized.
    pub open spec fn of(self, args: SearchFilesArgs) -> bool {
        &&& self.query@ == trim(args.query@)
        &&& self.query_lc@ == unicode_lowercase(trim(args.query@))
        &&& self.include_hidden == or_default(args.include_hidden, false)
        &&& self.search_content == or_default(args.search_content, false)
        &&& self.max_results == clamp(or_default(args.max_results, 30) as int, 1, 100)
        &&& self.max_file_bytes == clamp(
            or_default(args.max_file_bytes, DEFAULT_SEARCH_FILE_BYTES) as int,
            1024,
            MAX_TEXT_BYTES as int,
        )
        &&& match args.file_extensions {
            None => self.extensions is None,
            Some(v) => self.extensions matches Some(e) && e@.map_values(|s: String| s@)
                == normalized_extensions(v@),
        }
    }

    /// Whether a file of `size` bytes is small enough to search inside.
    pub fn reads_content(&self, size: u64) -> (r: bool)
        ensures
            r == (size <= self.max_file_bytes),
    {
        size <= self.max_file_bytes
    }
}

/// The error for a blank query.
pub open spec fn empty_query_message() -> Seq<char> {
    "query must not be empty"@
}

impl SearchFilesArgs {
    /// The search these arguments ask for (see [`SearchPlan::of`]).
    pub fn plan(self) -> (r: Result<SearchPlan, String>)
        ensures
            trim(self.query@).len() == 0 ==> (r matches Err(m) && m@ == empty_query_message()),
            trim(self.query@).len() > 0 ==> (r matches Ok(p) && p.of(self)),
    {
        let q = trim_chars(&chars_of(self.query.as_str()));
        if q.len() == 0 {
            return Err(String::from_str("query must not be empty"));
        }
        let query = string_from(q.as_slice());
        let query_lc = to_lowercase(query.as_str());
        let include_hidden = match self.include_hidden {
            Some(b) => b,
            None => false,
        };
        let search_content = match self.search_content {
            Some(b) => b,
            None => false,
        };
        let max_results = clamp_usize(
            match self.max_results {
                Some(n) => n,
                None => 30,
            },
            1,
            MAX_SEARCH_RESULTS,
        );
        let max_file_bytes = clamp_u64(
            match self.max_file_bytes {
                Some(n) => n,
                None => DEFAULT_SEARCH_FILE_BYTES,
            },
            1024,
            MAX_TEXT_BYTES,
        );
        let ghost args = self;
        let extensions = match self.file_extensions {
            None => None,
            Some(v) => Some(normalize_extensions(v)),
        };
        let plan = SearchPlan {
            query,
            query_lc,
            include_hidden,
            search_content,
            max_results,
            max_file_bytes,
            extensions,
        };
        assert(plan.of(args));
        Ok(plan)
    }
}

/// How far a search walk has got.
#[derive(Debug)]
pub struct SearchProgress {
    pub scanned_entries: usize,
    pub matches: usize,
    pub truncated: bool,
}

impl SearchProgress {
    /// A walk that has seen nothing yet.
    pub fn new() -> (r: SearchProgress)
        ensures
            r.scanned_entries == 0,
            r.matches == 0,
            !r.truncated,
    {
        SearchProgress { scanned_entries: 0, matches: 0, truncated: false }
    }

    /// Count one more visited entry and say whether the walk goes on: it
    /// stops, marked truncated, when the visit limit is reached or enough
    /// matches were found.
    pub fn visit(&mut self, max_results: usize) -> (go_on: bool)
        requires
            old(self).scanned_entries < MAX_SEARCH_VISITED,
        ensures
            (*final(self), go_on) == visited(*old(self), max_results),
            final(self).scanned_entries == old(self).scanned_entries + 1,
            final(self).matches == old(self).matches,
            go_on == (final(self).scanned_entries < MAX_SEARCH_VISITED && old(self).matches
                < max_results),
            final(self).truncated == (old(self).truncated || !go_on),
    {
        self.scanned_entries = self.scanned_entries + 1;
        if self.scanned_entries >= MAX_SEARCH_VISITED {
            self.truncated = true;
            return false;
        }
        if self.matches >= max_results {
            self.truncated = true;
            return false;
        }
        true
    }

    /// Count one more match.
    pub fn record_match(&mut self)
        requires
            old(self).matches < usize::MAX,
        ensures
            final(self).matches == old(self).matches + 1,
            final(self).scanned_entries == old(self).scanned_entries,
            final(self).truncated == old(self).truncated,
    {
        self.matches = self.matches + 1;
    }
}

/// The progress after the walk meets one more entry: counted, and marked
/// truncated when the walk stops there (see [`SearchProgress::visit`]).
pub open spec fn visited(p: SearchProgress, max_results: usize) -> (SearchProgress, bool) {
    let scanned = p.scanned_entries + 1;
    let go_on = scanned < MAX_SEARCH_VISITED && p.matches < max_results;
    (
        SearchProgress {
            scanned_entries: scanned as usize,
            matches: p.matches,
            truncated: p.truncated || !go_on,
        },
        go_on,
    )
}

/// A whole search walk over entries of which `hits` says which match: before
/// each entry the walk stops at the visit limit or when [`visited`] says so;
/// a matching entry counts one match.
pub open spec fn walk(p: SearchProgress, max_results: usize, hits: Seq<bool>) -> SearchProgress
    decreases hits.len(),
{
    if hits.len() == 0 || p.scanned_entries >= MAX_SEARCH_VISITED {
        p
    } else {
        let (q, go_on) = visited(p, max_results);
        if !go_on {
            q
        } else {
            let r = if hits[0] {
                SearchProgress { matches: (q.matches + 1) as usize, ..q }
            } else {
                q
            };
            walk(r, max_results, hits.drop_first())
        }
    }
}

/// However many entries a walk meets and whichever of them match, it never
/// reports more matches than asked for and never looks at more entries than
/// the visit limit.
pub proof fn lemma_walk_bounded(p: SearchProgress, max_results: usize, hits: Seq<bool>)
    requires
        p.matches <= max_results,
        p.scanned_entries <= MAX_SEARCH_VISITED,
    ensures
        walk(p, max_results, hits).matches <= max_results,
        walk(p, max_results, hits).scanned_entries <= MAX_SEARCH_VISITED,
    decreases hits.len(),
{
    if hits.len() > 0 && p.scanned_entries < MAX_SEARCH_VISITED {
        let (q, go_on) = visited(p, max_results);
        if go_on {
            let r = if hits[0] {
                SearchProgress { matches: (q.matches + 1) as usize, ..q }
            } else {
                q
            };
            lemma_walk_bounded(r, max_results, hits.drop_first());
        }
    }
}

/// What a search does with one directory entry.
#[derive(PartialEq, Eq, Structural, Clone, Copy, Debug)]
pub enum EntryAction {
    /// Leave it out.
    Skip,
    /// Report it as a name match.
    NameMatch,
    /// Read it and look for the query inside.
    SearchContent,
}

/// The action for an entry: a file whose extension fails the filter is left
/// out; a name or path containing the query is a name match; otherwise a
/// file's contents are searched when contents were asked for.
pub open spec fn entry_action_of(
    plan: SearchPlan,
    is_file: bool,
    ext: Option<Seq<char>>,
    file_name: Seq<char>,
    path_text: Seq<char>,
) -> EntryAction {
    if plan.extensions is Some && is_file && !extension_allowed(
        ext,
        plan.extensions->0@.map_values(|s: String| s@),
    ) {
        EntryAction::Skip
    } else if contains_seq(unicode_lowercase(file_name), plan.query_lc@) || contains_seq(
        unicode_lowercase(path_text),
        plan.query_lc@,
    ) {
        EntryAction::NameMatch
    } else if plan.search_content && is_file {
        EntryAction::SearchContent
    } else {
        EntryAction::Skip
    }
}

impl SearchPlan {
    /// What the search does with an entry (see [`entry_action_of`]).
    pub fn entry_action(&self, is_file: bool, ext: Option<&str>, file_name: &str, path_text: &str) -> (r: EntryAction)
        ensures
            r == entry_action_of(*self, is_file, ext_view(ext), file_name@, path_text@),
    {
        match &self.extensions {
            Some(exts) => {
                if is_file && !extension_matches(ext, exts) {
                    return EntryAction::Skip;
                }
            },
            None => {},
        }
        let q = chars_of(self.query_lc.as_str());
        let name_lc = chars_of(to_lowercase(file_name).as_str());
        let path_lc = chars_of(to_lowercase(path_text).as_str());
        if crate::text::contains_chars(&name_lc, &q) || crate::text::contains_chars(&path_lc, &q) {
            EntryAction::NameMatch
        } else if self.search_content && is_file {
            EntryAction::SearchContent
        } else {
            EntryAction::Skip
        }
    }
}

/// The first line of `ls` whose lower-case form contains `q`, with its
/// 1-based number, counting from `offset`.
pub open spec fn first_match_from(ls: Seq<Seq<char>>, q: Seq<char>, offset: int) -> Option<(int, Seq<char>)>
    decreases ls.len(),
{
    if ls.len() == 0 {
        None
    } else if contains_seq(unicode_lowercase(ls[0]), q) {
        Some((offset + 1, ls[0]))
    } else {
        first_match_from(ls.drop_first(), q, offset + 1)
    }
}

/// Where the query `q` first occurs in `text`: the line number and the
/// trimmed line cut to the snippet length.
pub open spec fn content_match(text: Seq<char>, q: Seq<char>) -> Option<(int, Seq<char>)> {
    match first_match_from(crate::parse::lines(text), q, 0) {
        None => None,
        Some(m) => Some((m.0, truncated(trim(m.1), SNIPPET_CHARS as nat))),
    }
}

/// The first line of `text` that contains `query_lc` once lower-cased, as
/// its 1-based number and a short snippet.
pub fn first_match_line(text: &str, query_lc: &str) -> (r: Option<(usize, String)>)
    ensures
        match content_match(text@, query_lc@) {
            None => r is None,
            Some(m) => r matches Some(p) && p.0 == m.0 && p.1@ == m.1,
        },
{
    let ls = crate::parse::split_lines(&chars_of(text));
    let q = chars_of(query_lc);
    let ghost all = ls@.map_values(|l: Vec<char>| l@);
    assert(all.subrange(0, all.len() as int) =~= all);
    let mut i: usize = 0;
    while i < ls.len()
        invariant
            i <= ls.len(),
            all == ls@.map_values(|l: Vec<char>| l@),
            all == crate::parse::lines(text@),
            q@ == query_lc@,
            first_match_from(all, q@, 0) == first_match_from(
                all.subrange(i as int, all.len() as int),
                q@,
                i as int,
            ),
        decreases ls.len() - i,
    {
        let ghost rest = all.subrange(i as int, all.len() as int);
        assert(rest[0] == ls@[i as int]@);
        let line = string_from(ls[i].as_slice());
        let lower = chars_of(to_lowercase(line.as_str()).as_str());
        if crate::text::contains_chars(&lower, &q) {
            let t = crate::text::trimmed(line.as_str());
            return Some((i + 1, truncate_chars(t.as_str(), SNIPPET_CHARS)));
        }
        assert(rest.drop_first() =~= all.subrange(i + 1, all.len() as int));
        i = i + 1;
    }
    assert(all.subrange(i as int, all.len() as int) =~= Seq::<Seq<char>>::empty());
    None
}

/// The text of a byte string read as UTF-8 with every invalid sequence
/// replaced by U+FFFD, as `String::from_utf8_lossy` produces it.
pub uninterp spec fn lossy_text(bytes: Seq<u8>) -> Seq<char>;

/// `String::from_utf8_lossy`: valid UTF-8 decodes as it is; invalid
/// sequences become U+FFFD. The contract names the result and states the
/// valid case; where the replacements fall is left unsaid.
#[verifier::external_body]
pub(crate) fn utf8_lossy(bytes: &[u8]) -> (r: String)
    ensures
        r@ == lossy_text(bytes@),
        vstd::utf8::valid_utf8(bytes@) ==> r@ == vstd::utf8::decode_utf8(bytes@),
{
    String::from_utf8_lossy(bytes).into_owned()
}

/// The strings `ws` joined with `sep` between neighbours.
pub open spec fn joined(ws: Seq<Seq<char>>, sep: Seq<char>) -> Seq<char>
    decreases ws.len(),
{
    if ws.len() == 0 {
        Seq::empty()
    } else if ws.len() == 1 {
        ws[0]
    } else {
        joined(ws.drop_last(), sep) + sep + ws.last()
    }
}

/// The lines of `ls` numbered from 1 that fall in the window of `max` lines
/// starting at line `start`, each written `n: text`.
pub open spec fn numbered_window(ls: Seq<Seq<char>>, start: int, max: int) -> Seq<Seq<char>>
    decreases ls.len(),
{
    if ls.len() == 0 {
        Seq::empty()
    } else {
        let n = ls.len() as int;
        numbered_window(ls.drop_last(), start, max) + if start <= n && n < start + max {
            seq![decimal(n as nat) + seq![':', ' '] + ls.last()]
        } else {
            Seq::empty()
        }
    }
}

/// Arguments of `read_text_file`.
#[derive(Debug)]
pub struct ReadTextFileArgs {
    pub path: String,
    pub max_bytes: Option<u64>,
    pub start_line: Option<usize>,
    pub max_lines: Option<usize>,
}

/// How much of a file `read_text_file` shows.
#[derive(Debug)]
pub struct ReadWindow {
    pub max_bytes: u64,
    pub start_line: usize,
    pub max_lines: usize,
}

impl ReadTextFileArgs {
    /// 64 KiB by default within 1 byte..=1 MiB, from line 1 (at least 1),
    /// 300 lines by default within 1..=2000.
    pub fn window(&self) -> (r: ReadWindow)
        ensures
            r.max_bytes == clamp(or_default(self.max_bytes, DEFAULT_TEXT_BYTES) as int, 1, MAX_TEXT_BYTES as int),
            r.start_line == (if or_default(self.start_line, 1) < 1 { 1 } else { or_default(self.start_line, 1) }),
            r.max_lines == clamp(or_default(self.max_lines, DEFAULT_TEXT_LINES) as int, 1, MAX_TEXT_LINES as int),
    {
        let start = match self.start_line {
            Some(n) => n,
            None => 1,
        };
        ReadWindow {
            max_bytes: clamp_u64(
                match self.max_bytes {
                    Some(n) => n,
                    None => DEFAULT_TEXT_BYTES,
                },
                1,
                MAX_TEXT_BYTES,
            ),
            start_line: if start < 1 {
                1
            } else {
                start
            },
            max_lines: clamp_usize(
                match self.max_lines {
                    Some(n) => n,
                    None => DEFAULT_TEXT_LINES,
                },
                1,
                MAX_TEXT_LINES,
            ),
        }
    }
}

/// What `read_text_file` shows of a file.
#[derive(Debug)]
pub struct TextWindow {
    /// Whether the file holds more than the byte limit.
    pub truncated: bool,
    /// The numbered lines of the window, one per line.
    pub content: String,
}

impl ReadWindow {
    /// The window over a file of `file_len` bytes of which `bytes` were read
    /// (at most one byte beyond the limit): truncated when either exceeds the
    /// limit; the text is the first `max_bytes` bytes decoded leniently, and
    /// the content its numbered lines in the window, joined by line feeds.
    pub fn show(&self, bytes: Vec<u8>, file_len: u64) -> (r: TextWindow)
        ensures
            r.truncated == (bytes@.len() > self.max_bytes || file_len > self.max_bytes),
            r.content@ == joined(
                numbered_window(
                    crate::parse::lines(lossy_text(
                        if bytes@.len() > self.max_bytes {
                            bytes@.subrange(0, self.max_bytes as int)
                        } else {
                            bytes@
                        },
                    )),
                    self.start_line as int,
                    self.max_lines as int,
                ),
                seq!['\n'],
            ),
    {
        let truncated = bytes.len() as u64 > self.max_bytes || file_len > self.max_bytes;
        let mut kept = bytes;
        if kept.len() as u64 > self.max_bytes {
            kept.truncate(self.max_bytes as usize);
        }
        let text = utf8_lossy(kept.as_slice());
        let ls = crate::parse::split_lines(&chars_of(text.as_str()));
        let ghost all = ls@.map_values(|l: Vec<char>| l@);
        let mut out: Vec<char> = Vec::new();
        let mut any = false;
        let mut i: usize = 0;
        while i < ls.len()
            invariant
                i <= ls.len(),
                all == ls@.map_values(|l: Vec<char>| l@),
                out@ == joined(
                    numbered_window(all.subrange(0, i as int), self.start_line as int, self.max_lines as int),
                    seq!['\n'],
                ),
                any == (numbered_window(all.subrange(0, i as int), self.start_line as int, self.max_lines as int).len() > 0),
            decreases ls.len() - i,
        {
            let n = i + 1;
            let ghost prev = numbered_window(all.subrange(0, i as int), self.start_line as int, self.max_lines as int);
            proof {
                let s = all.subrange(0, i + 1);
                assert(s.drop_last() =~= all.subrange(0, i as int));
                assert(s.last() == ls@[i as int]@);
            }
            if n >= self.start_line && n - self.start_line < self.max_lines {
                let ghost before = out@;
                if any {
                    out.push('\n');
                }
                let mut num = decimal_chars(n as u64);
                out.append(&mut num);
                out.push(':');
                out.push(' ');
                let mut j: usize = 0;
                let ghost mid = out@;
                while j < ls[i].len()
                    invariant
                        i < ls.len(),
                        j <= ls@[i as int]@.len(),
                        out@ == mid + ls@[i as int]@.subrange(0, j as int),
                    decreases ls@[i as int]@.len() - j,
                {
                    out.push(ls[i][j]);
                    j = j + 1;
                    assert(out@ =~= mid + ls@[i as int]@.subrange(0, j as int));
                }
                proof {
                    assert(ls@[i as int]@.subrange(0, j as int) =~= ls@[i as int]@);
                    let entry = decimal(n as nat) + seq![':', ' '] + ls@[i as int]@;
                    let now = prev + seq![entry];
                    assert(numbered_window(all.subrange(0, i + 1), self.start_line as int, self.max_lines as int) == now);
                    if any {
                        assert(now.drop_last() =~= prev);
                        assert(out@ =~= before + seq!['\n'] + entry);
                    } else {
                        assert(prev.len() == 0);
                        assert(now =~= seq![entry]);
                        assert(out@ =~= entry);
                    }
                }
                any = true;
            } else {
                proof {
                    assert(numbered_window(all.subrange(0, i + 1), self.start_line as int, self.max_lines as int)
                        =~= prev);
                }
            }
            i = i + 1;
        }
        assert(all.subrange(0, ls.len() as int) =~= all);
        TextWindow { truncated, content: string_from(out.as_slice()) }
    }
}

/// Index of the first non-whitespace character of `s` at or after `i` (the
/// length when there is none).
pub open spec fn next_nonspace(s: Seq<char>, i: int) -> int
    decreases s.len() - i,
{
    if i >= s.len() {
        s.len() as int
    } else if !is_space(s[i]) {
        i
    } else {
        next_nonspace(s, i + 1)
    }
}

/// The whitespace-separated words of `s[i..]` (`str::split_whitespace`).
pub open spec fn words_from(s: Seq<char>, i: int) -> Seq<Seq<char>>
    decreases s.len() - i,
{
    if i < 0 || i >= s.len() {
        Seq::empty()
    } else {
        let j = next_nonspace(s, i);
        if j < i || j >= s.len() {
            Seq::empty()
        } else {
            let k = crate::parse::next_space(s, j);
            if k <= j || k > s.len() {
                Seq::empty()
            } else {
                seq![s.subrange(j, k)] + words_from(s, k)
            }
        }
    }
}

/// The whitespace-separated words of `s`.
pub open spec fn words(s: Seq<char>) -> Seq<Seq<char>> {
    words_from(s, 0)
}

proof fn lemma_next_nonspace(s: Seq<char>, i: int)
    requires
        0 <= i <= s.len(),
    ensures
        i <= next_nonspace(s, i) <= s.len(),
        next_nonspace(s, i) < s.len() ==> !is_space(s[next_nonspace(s, i)]),
    decreases s.len() - i,
{
    if i < s.len() && is_space(s[i]) {
        lemma_next_nonspace(s, i + 1);
    }
}

/// The whitespace-separated words of `v`.
pub fn split_words(v: &Vec<char>) -> (r: Vec<Vec<char>>)
    ensures
        r@.map_values(|w: Vec<char>| w@) == words(v@),
{
    let mut r: Vec<Vec<char>> = Vec::new();
    let mut i: usize = 0;
    while i < v.len()
        invariant
            i <= v.len(),
            words(v@) == r@.map_values(|w: Vec<char>| w@) + words_from(v@, i as int),
        decreases v.len() - i,
    {
        let mut j = i;
        while j < v.len() && crate::text::is_whitespace(v[j])
            invariant
                i <= j <= v.len(),
                next_nonspace(v@, i as int) == next_nonspace(v@, j as int),
            decreases v.len() - j,
        {
            j = j + 1;
        }
        proof {
            lemma_next_nonspace(v@, i as int);
        }
        if j >= v.len() {
            assert(words_from(v@, i as int) =~= Seq::<Seq<char>>::empty());
            i = v.len();
            assert(words_from(v@, i as int) =~= Seq::<Seq<char>>::empty());
        } else {
            let mut k = j;
            while k < v.len() && !crate::text::is_whitespace(v[k])
                invariant
                    j <= k <= v.len(),
                    crate::parse::next_space(v@, j as int) == crate::parse::next_space(v@, k as int),
                decreases v.len() - k,
            {
                k = k + 1;
            }
            assert(k > j);
            let w = crate::text::slice_chars(v, j, k);
            let ghost before = r@.map_values(|w: Vec<char>| w@);
            r.push(w);
            assert(r@.map_values(|w: Vec<char>| w@) =~= before + seq![w@]);
            assert(words_from(v@, i as int) == seq![w@] + words_from(v@, k as int));
            i = k;
        }
    }
    assert(words_from(v@, i as int) =~= Seq::<Seq<char>>::empty());
    assert(words(v@) =~= r@.map_values(|w: Vec<char>| w@));
    r
}

/// Commands `run_project_check` may run, after whitespace is normalized.
pub open spec fn allowed_check_commands() -> Seq<Seq<char>> {
    seq![
        "npm test"@,
        "npm run test"@,
        "npm run build"@,
        "npm run lint"@,
        "npm run check"@,
        "npm run typecheck"@,
        "cargo test"@,
        "cargo check"@,
        "cargo build"@,
        "cargo clippy"@,
        "cargo fmt --check"@,
    ]
}

/// The note listing the allowed commands, after a refused one.
pub open spec fn allowed_note() -> Seq<char> {
    "（允许：npm test, npm run test, npm run build, npm run lint, npm run check, npm run typecheck, cargo test, cargo check, cargo build, cargo clippy, cargo fmt --check）"@
}

/// Arguments of `run_project_check`.
#[derive(Debug)]
pub struct RunProjectCheckArgs {
    pub path: Option<String>,
    pub command: String,
    pub timeout_secs: Option<u64>,
}

/// A project check that may run.
#[derive(Debug)]
pub struct ProjectCheck {
    /// The command with its words joined by single spaces.
    pub normalized: String,
    pub program: String,
    pub args: Vec<String>,
    /// Kill deadline in seconds.
    pub timeout_secs: u64,
}

/// The outcome `run_project_check` owes for `args`: an error for a blank
/// command, an error naming the command when its normalized form is not
/// allowed, else the command split into program and arguments with a
/// deadline of 60 s by default within 5..=600.
pub open spec fn project_check_of(args: RunProjectCheckArgs, r: Result<ProjectCheck, String>) -> bool {
    let ws = words(args.command@);
    let normalized = joined(ws, seq![' ']);
    if trim(args.command@).len() == 0 {
        r matches Err(m) && m@ == "command must not be empty"@
    } else if !allowed_check_commands().contains(normalized) {
        r matches Err(m) && m@ == "command not in allow-list: "@ + normalized + allowed_note()
    } else {
        r matches Ok(c) && c.normalized@ == normalized && ws.len() > 0 && c.program@ == ws[0]
            && c.args@.map_values(|a: String| a@) == ws.drop_first() && c.timeout_secs == clamp(
            or_default(args.timeout_secs, 60) as int,
            5,
            600,
        )
    }
}

impl RunProjectCheckArgs {
    /// The check these arguments ask for (see [`project_check_of`]).
    pub fn check(&self) -> (r: Result<ProjectCheck, String>)
        ensures
            project_check_of(*self, r),
    {
        let v = chars_of(self.command.as_str());
        let t = trim_chars(&v);
        if t.len() == 0 {
            return Err(String::from_str("command must not be empty"));
        }
        let ws = split_words(&v);
        let ghost wsv = ws@.map_values(|w: Vec<char>| w@);
        let mut normalized: Vec<char> = Vec::new();
        let mut k: usize = 0;
        while k < ws.len()
            invariant
                k <= ws.len(),
                wsv == ws@.map_values(|w: Vec<char>| w@),
                normalized@ == joined(wsv.subrange(0, k as int), seq![' ']),
            decreases ws.len() - k,
        {
            let ghost before = normalized@;
            if k > 0 {
                normalized.push(' ');
            }
            let mut j: usize = 0;
            let ghost mid = normalized@;
            while j < ws[k].len()
                invariant
                    k < ws.len(),
                    j <= ws@[k as int]@.len(),
                    normalized@ == mid + ws@[k as int]@.subrange(0, j as int),
                decreases ws@[k as int]@.len() - j,
            {
                normalized.push(ws[k][j]);
                j = j + 1;
                assert(normalized@ =~= mid + ws@[k as int]@.subrange(0, j as int));
            }
            proof {
                assert(ws@[k as int]@.subrange(0, j as int) =~= ws@[k as int]@);
                let s = wsv.subrange(0, k + 1);
                assert(s.drop_last() =~= wsv.subrange(0, k as int));
                assert(s.last() == ws@[k as int]@);
                if k == 0 {
                    assert(s.len() == 1);
                    assert(normalized@ =~= ws@[0]@);
                } else {
                    assert(normalized@ =~= before + seq![' '] + ws@[k as int]@);
                }
            }
            k = k + 1;
        }
        assert(wsv.subrange(0, ws.len() as int) =~= wsv);
        let allowed: Vec<&str> = vec![
            "npm test",
            "npm run test",
            "npm run build",
            "npm run lint",
            "npm run check",
            "npm run typecheck",
            "cargo test",
            "cargo check",
            "cargo build",
            "cargo clippy",
            "cargo fmt --check",
        ];
        let ghost spec_allowed = allowed_check_commands();
        assert forall|m: int| 0 <= m < allowed@.len() implies allowed@[m]@ == spec_allowed[m] by {}
        let mut found = false;
        let mut m: usize = 0;
        while m < allowed.len() && !found
            invariant
                m <= allowed.len(),
                allowed@.len() == spec_allowed.len(),
                forall|x: int| 0 <= x < allowed@.len() ==> allowed@[x]@ == spec_allowed[x],
                found ==> spec_allowed.contains(normalized@),
                !found ==> forall|x: int| 0 <= x < m ==> spec_allowed[x] != normalized@,
            decreases allowed.len() - m,
        {
            let entry = chars_of(allowed[m]);
            if crate::text::chars_eq(&entry, &normalized) {
                assert(spec_allowed[m as int] == normalized@);
                found = true;
            }
            m = m + 1;
        }
        if !found {
            proof {
                if spec_allowed.contains(normalized@) {
                    let x = choose|x: int| 0 <= x < spec_allowed.len() && spec_allowed[x] == normalized@;
                    assert(spec_allowed[x] != normalized@);
                }
            }
            let mut msg = String::from_str("command not in allow-list: ");
            msg.append(string_from(normalized.as_slice()).as_str());
            msg.append("（允许：npm test, npm run test, npm run build, npm run lint, npm run check, npm run typecheck, cargo test, cargo check, cargo build, cargo clippy, cargo fmt --check）");
            return Err(msg);
        }
        if ws.len() == 0 {
            proof {
                assert(wsv.len() == 0);
                assert(normalized@.len() == 0);
                let x = choose|x: int| 0 <= x < spec_allowed.len() && spec_allowed[x] == normalized@;
                reveal_strlit("npm test");
                reveal_strlit("npm run test");
                reveal_strlit("npm run build");
                reveal_strlit("npm run lint");
                reveal_strlit("npm run check");
                reveal_strlit("npm run typecheck");
                reveal_strlit("cargo test");
                reveal_strlit("cargo check");
                reveal_strlit("cargo build");
                reveal_strlit("cargo clippy");
                reveal_strlit("cargo fmt --check");
                assert(spec_allowed[x].len() > 0);
            }
            return Err(String::from_str("command must not be empty"));
        }
        let program = string_from(ws[0].as_slice());
        let mut rest: Vec<String> = Vec::new();
        let mut a: usize = 1;
        while a < ws.len()
            invariant
                1 <= a <= ws.len(),
                wsv == ws@.map_values(|w: Vec<char>| w@),
                rest@.map_values(|x: String| x@) == wsv.subrange(1, a as int),
            decreases ws.len() - a,
        {
            let ghost before = rest@.map_values(|x: String| x@);
            rest.push(string_from(ws[a].as_slice()));
            assert(rest@.map_values(|x: String| x@) =~= before + seq![wsv[a as int]]);
            a = a + 1;
            assert(wsv.subrange(1, a as int) =~= before + seq![wsv[a - 1]]);
        }
        assert(wsv.subrange(1, ws.len() as int) =~= wsv.drop_first());
        let timeout_secs = clamp_u64(
            match self.timeout_secs {
                Some(n) => n,
                None => 60,
            },
            5,
            600,
        );
        Ok(ProjectCheck {
            normalized: string_from(normalized.as_slice()),
            program,
            args: rest,
            timeout_secs,
        })
    }
}

/// Whether a run that did not succeed ran out of time: its error output
/// starts with the timeout notice.
pub fn check_timed_out(status_success: bool, stderr: &str) -> (r: bool)
    ensures
        r == (!status_success && starts_with(stderr@, "timed out"@)),
{
    !status_success && crate::text::starts_with_chars(&chars_of(stderr), &chars_of("timed out"))
}

/// The error output reported for a run: after a timeout, a notice naming the
/// deadline comes first.
pub fn command_stderr(timed_out: bool, timeout_secs: u64, err: &str) -> (r: String)
    ensures
        timed_out ==> r@ == "timed out after "@ + decimal(timeout_secs as nat) + "s\n"@ + err@,
        !timed_out ==> r@ == err@,
{
    if timed_out {
        let mut m = String::from_str("timed out after ");
        m.append(string_from(decimal_chars(timeout_secs).as_slice()).as_str());
        m.append("s\n");
        m.append(err);
        m
    } else {
        String::from_str(err)
    }
}

/// Arguments of `create_note`.
#[derive(Debug)]
pub struct CreateNoteArgs {
    pub title: String,
    pub content: String,
    pub append: Option<bool>,
}

/// A note that may be written.
#[derive(Debug)]
pub struct NotePlan {
    /// The trimmed title.
    pub title: String,
    /// `<slug>.md` in the notes directory.
    pub file_name: String,
    pub append: bool,
}

impl CreateNoteArgs {
    /// The note to write: a blank title and a body over 256 KiB are refused;
    /// the file is named after the title's slug.
    pub fn plan(&self) -> (r: Result<NotePlan, String>)
        ensures
            trim(self.title@).len() == 0 ==> (r matches Err(m) && m@ == "title must not be empty"@),
            trim(self.title@).len() > 0 && encode_utf8(self.content@).len() > MAX_NOTE_BYTES
                ==> (r matches Err(m) && m@ == "note too large (max 262144 bytes)"@),
            trim(self.title@).len() > 0 && encode_utf8(self.content@).len() <= MAX_NOTE_BYTES
                ==> (r matches Ok(p) && p.title@ == trim(self.title@) && p.file_name@ == slug(
                trim(self.title@),
            ) + ".md"@ && p.append == or_default(self.append, false)),
    {
        let t = trim_chars(&chars_of(self.title.as_str()));
        if t.len() == 0 {
            return Err(String::from_str("title must not be empty"));
        }
        if self.content.as_str().as_bytes().len() as u64 > MAX_NOTE_BYTES {
            return Err(String::from_str("note too large (max 262144 bytes)"));
        }
        let title = string_from(t.as_slice());
        let mut file_name = slugify(title.as_str());
        file_name.append(".md");
        Ok(NotePlan {
            title,
            file_name,
            append: match self.append {
                Some(b) => b,
                None => false,
            },
        })
    }
}

/// The text a note file holds after writing `content` under `title`: a new
/// note is a `#` heading and the content; appending to a non-empty file adds
/// a blank line, a `##` heading and the content after what was there.
pub open spec fn note_text(title: Seq<char>, content: Seq<char>, append: bool, existing: Seq<char>) -> Seq<char> {
    if append && existing.len() > 0 {
        existing + "\n\n## "@ + title + "\n\n"@ + content
    } else {
        "# "@ + title + "\n\n"@ + content
    }
}

/// The note file's new text (see [`note_text`]); `existing` is what the file
/// held, empty when it could not be read.
pub fn note_body(title: &str, content: &str, append: bool, existing: &str) -> (r: String)
    ensures
        r@ == note_text(title@, content@, append, existing@),
{
    if append && chars_of(existing).len() > 0 {
        let mut b = String::from_str(existing);
        b.append("\n\n## ");
        b.append(title);
        b.append("\n\n");
        b.append(content);
        b
    } else {
        let mut b = String::from_str("# ");
        b.append(title);
        b.append("\n\n");
        b.append(content);
        b
    }
}

/// A long text reported in part: its length in characters, whether it was
/// cut, and what is shown.
#[derive(Debug)]
pub struct TextReport {
    pub total: usize,
    pub truncated: bool,
    pub text: String,
}

/// `raw` limited to `max` characters, with its full length.
pub fn text_report(raw: &str, max: usize) -> (r: TextReport)
    ensures
        r.total == raw@.len(),
        r.truncated == (raw@.len() > max),
        r.text@ == truncated(raw@, max as nat),
{
    let total = chars_of(raw).len();
    TextReport { total, truncated: total > max, text: truncate_chars(raw, max) }
}

/// Arguments of `clipboard_read`.
#[derive(Debug)]
pub struct ClipboardReadArgs {}

/// Arguments of `open_path`.
#[derive(Debug)]
pub struct OpenPathArgs {
    pub path: String,
}

/// What `open_path` hands to the system opener.
#[derive(Debug)]
pub enum OpenTarget {
    /// A web address, opened as given.
    Url(String),
    /// A local path, to be resolved first.
    Path(String),
}

impl OpenPathArgs {
    /// The trimmed target; `http://` and `https://` addresses are URLs.
    pub fn target(&self) -> (r: Result<OpenTarget, String>)
        ensures
            trim(self.path@).len() == 0 ==> (r matches Err(m) && m@ == empty_path_message()),
            trim(self.path@).len() > 0 && (starts_with(trim(self.path@), "http://"@) || starts_with(
                trim(self.path@),
                "https://"@,
            )) ==> (r matches Ok(OpenTarget::Url(u)) && u@ == trim(self.path@)),
            trim(self.path@).len() > 0 && !(starts_with(trim(self.path@), "http://"@) || starts_with(
                trim(self.path@),
                "https://"@,
            )) ==> (r matches Ok(OpenTarget::Path(p)) && p@ == trim(self.path@)),
    {
        let t = trim_chars(&chars_of(self.path.as_str()));
        if t.len() == 0 {
            return Err(String::from_str("path must not be empty"));
        }
        let target = string_from(t.as_slice());
        if crate::text::starts_with_chars(&t, &chars_of("http://")) || crate::text::starts_with_chars(
            &t,
            &chars_of("https://"),
        ) {
            Ok(OpenTarget::Url(target))
        } else {
            Ok(OpenTarget::Path(target))
        }
    }
}

/// Arguments of `weather_lookup`.
#[derive(Debug)]
pub struct WeatherLookupArgs {
    pub city: String,
    pub units: Option<String>,
}

/// A weather query to send.
#[derive(Debug)]
pub struct WeatherRequest {
    /// The trimmed city, shown when the service names no area.
    pub city: String,
    pub url: String,
    pub fahrenheit: bool,
}

/// Whether a units setting asks for Fahrenheit: it is `f` in either case.
pub open spec fn asks_fahrenheit(units: Option<String>) -> bool {
    match units {
        Some(u) => u@.len() == 1 && ascii_lower(u@[0]) == 'f',
        None => false,
    }
}

impl WeatherLookupArgs {
    /// The wttr.in query for the trimmed city; a blank city is refused.
    pub fn request(&self) -> (r: Result<WeatherRequest, String>)
        ensures
            trim(self.city@).len() == 0 ==> (r matches Err(m) && m@ == "city must not be empty"@),
            trim(self.city@).len() > 0 ==> (r matches Ok(q) && q.city@ == trim(self.city@) && q.url@
                == "https://wttr.in/"@ + percent_encoded(encode_utf8(trim(self.city@))) + "?format=j1"@
                && q.fahrenheit == asks_fahrenheit(self.units)),
    {
        let t = trim_chars(&chars_of(self.city.as_str()));
        if t.len() == 0 {
            return Err(String::from_str("city must not be empty"));
        }
        let city = string_from(t.as_slice());
        let fahrenheit = match &self.units {
            Some(u) => {
                let c = chars_of(u.as_str());
                c.len() == 1 && to_ascii_lower(c[0]) == 'f'
            },
            None => false,
        };
        let mut url = String::from_str("https://wttr.in/");
        url.append(url_encode(city.as_str()).as_str());
        url.append("?format=j1");
        Ok(WeatherRequest { city, url, fahrenheit })
    }
}

impl WeatherRequest {
    /// The field holding the temperature in the chosen unit.
    pub fn temp_key(&self) -> (r: &'static str)
        ensures
            r@ == (if self.fahrenheit { "temp_F"@ } else { "temp_C"@ }),
    {
        if self.fahrenheit {
            "temp_F"
        } else {
            "temp_C"
        }
    }

    /// The field holding the felt temperature in the chosen unit.
    pub fn feels_key(&self) -> (r: &'static str)
        ensures
            r@ == (if self.fahrenheit { "FeelsLikeF"@ } else { "FeelsLikeC"@ }),
    {
        if self.fahrenheit {
            "FeelsLikeF"
        } else {
            "FeelsLikeC"
        }
    }

    /// The unit letter shown after a temperature.
    pub fn unit_label(&self) -> (r: &'static str)
        ensures
            r@ == (if self.fahrenheit { "F"@ } else { "C"@ }),
    {
        if self.fahrenheit {
            "F"
        } else {
            "C"
        }
    }
}

/// Arguments of `web_search`.
#[derive(Debug)]
pub struct WebSearchArgs {
    pub query: String,
    pub max_results: Option<usize>,
}

/// A web search to send.
#[derive(Debug)]
pub struct WebSearchRequest {
    /// The trimmed query.
    pub query: String,
    pub max_results: usize,
    pub url: String,
}

impl WebSearchArgs {
    /// The DuckDuckGo Instant Answer query for the trimmed text, 8 results by
    /// default within 1..=20; a blank query is refused.
    pub fn request(&self) -> (r: Result<WebSearchRequest, String>)
        ensures
            trim(self.query@).len() == 0 ==> (r matches Err(m) && m@ == empty_query_message()),
            trim(self.query@).len() > 0 ==> (r matches Ok(q) && q.query@ == trim(self.query@)
                && q.max_results == clamp(or_default(self.max_results, 8) as int, 1, 20) && q.url@
                == "https://api.duckduckgo.com/?q="@ + percent_encoded(encode_utf8(trim(self.query@)))
                + "&format=json&no_html=1&skip_disambig=1&t=ipet"@),
    {
        let t = trim_chars(&chars_of(self.query.as_str()));
        if t.len() == 0 {
            return Err(String::from_str("query must not be empty"));
        }
        let query = string_from(t.as_slice());
        let mut url = String::from_str("https://api.duckduckgo.com/?q=");
        url.append(url_encode(query.as_str()).as_str());
        url.append("&format=json&no_html=1&skip_disambig=1&t=ipet");
        let max_results = clamp_usize(
            match self.max_results {
                Some(n) => n,
                None => 8,
            },
            1,
            20,
        );
        Ok(WebSearchRequest { query, max_results, url })
    }
}

/// Arguments of `git_status`.
#[derive(Debug)]
pub struct GitStatusArgs {
    pub path: Option<String>,
    pub include_diff: Option<bool>,
    pub max_diff_chars: Option<usize>,
}

impl GitStatusArgs {
    /// The repository path asked for, the current directory by default.
    pub fn repo_path(&self) -> (r: String)
        ensures
            r@ == (match self.path {
                Some(p) => p@,
                None => "."@,
            }),
    {
        match &self.path {
            Some(p) => p.clone(),
            None => String::from_str("."),
        }
    }

    /// How much of the diff to include: nothing unless asked for, else up to
    /// 12000 characters by default within 0..=50000, nothing at 0.
    pub fn diff_limit(&self) -> (r: Option<usize>)
        ensures
            r == (if or_default(self.include_diff, false) && clamp(
                or_default(self.max_diff_chars, 12000) as int,
                0,
                50000,
            ) > 0 {
                Some(clamp(or_default(self.max_diff_chars, 12000) as int, 0, 50000) as usize)
            } else {
                None::<usize>
            }),
    {
        let wanted = match self.include_diff {
            Some(b) => b,
            None => false,
        };
        let max = clamp_usize(
            match self.max_diff_chars {
                Some(n) => n,
                None => 12000,
            },
            0,
            50000,
        );
        if wanted && max > 0 {
            Some(max)
        } else {
            None
        }
    }
}

/// Arguments of `list_processes`.
#[derive(Debug)]
pub struct ListProcessesArgs {
    pub limit: Option<usize>,
    pub sort_by: Option<String>,
    pub filter: Option<String>,
}

/// The order processes are listed in.
#[derive(PartialEq, Eq, Structural, Clone, Copy, Debug)]
pub enum ProcessOrder {
    /// Most CPU first, then most memory.
    Cpu,
    /// Most memory first.
    Memory,
    /// By lower-cased name.
    Name,
}

impl ListProcessesArgs {
    /// Processes listed: 30 by default within 1..=100.
    pub fn limit(&self) -> (r: usize)
        ensures
            r == clamp(or_default(self.limit, 30) as int, 1, 100),
    {
        clamp_usize(
            match self.limit {
                Some(n) => n,
                None => 30,
            },
            1,
            100,
        )
    }

    /// `memory` and `name` pick those orders; anything else, or nothing,
    /// orders by CPU.
    pub fn order(&self) -> (r: ProcessOrder)
        ensures
            r == (match self.sort_by {
                Some(s) => if s@ == "memory"@ {
                    ProcessOrder::Memory
                } else if s@ == "name"@ {
                    ProcessOrder::Name
                } else {
                    ProcessOrder::Cpu
                },
                None => ProcessOrder::Cpu,
            }),
    {
        match &self.sort_by {
            Some(s) => {
                if crate::text::str_eq(s.as_str(), "memory") {
                    ProcessOrder::Memory
                } else if crate::text::str_eq(s.as_str(), "name") {
                    ProcessOrder::Name
                } else {
                    ProcessOrder::Cpu
                }
            },
            None => ProcessOrder::Cpu,
        }
    }

    /// The lower-cased filter text, empty when there is none.
    pub fn filter_lc(&self) -> (r: String)
        ensures
            r@ == (match self.filter {
                Some(f) => unicode_lowercase(f@),
                None => unicode_lowercase(Seq::empty()),
            }),
    {
        match &self.filter {
            Some(f) => to_lowercase(f.as_str()),
            None => {
                proof {
                    reveal_strlit("");
                    assert(""@ =~= Seq::<char>::empty());
                }
                to_lowercase("")
            },
        }
    }
}

/// Whether a process is listed under the lower-cased filter: every process
/// when the filter is empty, else those whose name or command line contains
/// it once lower-cased.
pub fn process_matches(filter_lc: &str, name: &str, command: &str) -> (r: bool)
    ensures
        r == (filter_lc@.len() == 0 || contains_seq(unicode_lowercase(name@), filter_lc@)
            || contains_seq(unicode_lowercase(command@), filter_lc@)),
{
    let f = chars_of(filter_lc);
    if f.len() == 0 {
        return true;
    }
    crate::text::contains_chars(&chars_of(to_lowercase(name).as_str()), &f)
        || crate::text::contains_chars(&chars_of(to_lowercase(command).as_str()), &f)
}

/// Arguments of `network_status`.
#[derive(Debug)]
pub struct NetworkStatusArgs {
    pub dns_host: Option<String>,
    pub tcp_target: Option<String>,
    pub timeout_ms: Option<u64>,
    pub include_interfaces: Option<bool>,
}

/// The probes `network_status` runs.
#[derive(Debug)]
pub struct NetworkProbe {
    pub dns_host: String,
    pub tcp_target: String,
    pub timeout_ms: u64,
    pub include_interfaces: bool,
}

impl NetworkStatusArgs {
    /// `example.com` and `1.1.1.1:53` by default, 1200 ms by default within
    /// 100..=5000, interfaces listed unless turned off.
    pub fn probe(&self) -> (r: NetworkProbe)
        ensures
            r.dns_host@ == (match self.dns_host {
                Some(h) => h@,
                None => "example.com"@,
            }),
            r.tcp_target@ == (match self.tcp_target {
                Some(t) => t@,
                None => "1.1.1.1:53"@,
            }),
            r.timeout_ms == clamp(or_default(self.timeout_ms, 1200) as int, 100, 5000),
            r.include_interfaces == or_default(self.include_interfaces, true),
    {
        NetworkProbe {
            dns_host: match &self.dns_host {
                Some(h) => h.clone(),
                None => String::from_str("example.com"),
            },
            tcp_target: match &self.tcp_target {
                Some(t) => t.clone(),
                None => String::from_str("1.1.1.1:53"),
            },
            timeout_ms: clamp_u64(
                match self.timeout_ms {
                    Some(n) => n,
                    None => 1200,
                },
                100,
                5000,
            ),
            include_interfaces: match self.include_interfaces {
                Some(b) => b,
                None => true,
            },
        }
    }
}

/// Arguments of `recent_system_errors`.
#[derive(Debug)]
pub struct RecentSystemErrorsArgs {
    pub limit: Option<usize>,
    pub since_hours: Option<u64>,
}

impl RecentSystemErrorsArgs {
    /// Entries asked for (20 by default within 1..=100) and the look-back in
    /// hours (24 by default within 1..=168).
    pub fn window(&self) -> (r: (usize, u64))
        ensures
            r.0 == clamp(or_default(self.limit, 20) as int, 1, 100),
            r.1 == clamp(or_default(self.since_hours, 24) as int, 1, 168),
    {
        (
            clamp_usize(
                match self.limit {
                    Some(n) => n,
                    None => 20,
                },
                1,
                100,
            ),
            clamp_u64(
                match self.since_hours {
                    Some(n) => n,
                    None => 24,
                },
                1,
                168,
            ),
        )
    }
}

/// Arguments of `package_scripts`.
#[derive(Debug)]
pub struct PackageScriptsArgs {
    pub path: Option<String>,
}

impl PackageScriptsArgs {
    /// The project directory, the current one by default.
    pub fn project_path(&self) -> (r: String)
        ensures
            r@ == (match self.path {
                Some(p) => p@,
                None => "."@,
            }),
    {
        match &self.path {
            Some(p) => p.clone(),
            None => String::from_str("."),
        }
    }
}

/// Arguments of `disk_cleanup_candidates`.
#[derive(Debug)]
pub struct DiskCleanupCandidatesArgs {
    pub max_results: Option<usize>,
}

impl DiskCleanupCandidatesArgs {
    /// Candidates listed: 40 by default within 1..=200.
    pub fn max_results(&self) -> (r: usize)
        ensures
            r == clamp(or_default(self.max_results, 40) as int, 1, 200),
    {
        clamp_usize(
            match self.max_results {
                Some(n) => n,
                None => 40,
            },
            1,
            200,
        )
    }
}

/// Arguments of `screenshot_ocr`.
#[derive(Debug)]
pub struct ScreenshotOcrArgs {
    pub language: Option<String>,
    pub max_chars: Option<usize>,
}

impl ScreenshotOcrArgs {
    /// The OCR language (`eng` by default) and the text limit (20000
    /// characters by default within 1..=100000).
    pub fn settings(&self) -> (r: (String, usize))
        ensures
            r.0@ == (match self.language {
                Some(l) => l@,
                None => "eng"@,
            }),
            r.1 == clamp(or_default(self.max_chars, 20000) as int, 1, 100000),
    {
        (
            match &self.language {
                Some(l) => l.clone(),
                None => String::from_str("eng"),
            },
            clamp_usize(
                match self.max_chars {
                    Some(n) => n,
                    None => 20000,
                },
                1,
                100000,
            ),
        )
    }
}

} // verus!
