//! Splitting text into lines, fields and tokens, and reading unsigned numbers
//! out of it, with the meaning `str::lines`, `str::split`,
//! `str::split_whitespace` and `u32::from_str_radix` give those operations.

use crate::text::{chars_of, is_space, is_whitespace, slice_chars, trim_start};
use vstd::prelude::*;

verus! {

/// Index of the first `c` in `s` at or after `i` (the length when there is none).
pub open spec fn next_char(s: Seq<char>, c: char, i: int) -> int
    decreases s.len() - i,
{
    if i >= s.len() {
        s.len() as int
    } else if s[i] == c {
        i
    } else {
        next_char(s, c, i + 1)
    }
}

/// The text of the line that starts at `i` and ends before position `e`: a
/// carriage return is dropped when it stands right before a line feed.
pub open spec fn line_text(s: Seq<char>, i: int, e: int) -> Seq<char> {
    if e < s.len() && e > i && s[e - 1] == '\r' {
        s.subrange(i, e - 1)
    } else {
        s.subrange(i, e)
    }
}

/// The lines of `s[i..]`, as `str::lines` yields them: split at `\n` or
/// `\r\n`, the terminators left out, no empty line after a final terminator.
pub open spec fn lines_from(s: Seq<char>, i: int) -> Seq<Seq<char>>
    decreases s.len() - i,
{
    if i < 0 || i >= s.len() {
        Seq::empty()
    } else {
        let e = next_char(s, '\n', i);
        if e < i || e > s.len() {
            Seq::empty()
        } else if e < s.len() {
            seq![line_text(s, i, e)] + lines_from(s, e + 1)
        } else {
            seq![line_text(s, i, e)]
        }
    }
}

/// The lines of `s` (`str::lines`).
pub open spec fn lines(s: Seq<char>) -> Seq<Seq<char>> {
    lines_from(s, 0)
}

/// The fields of `s[i..]` separated by `sep`, as `str::split` yields them:
/// always at least one, empty fields kept.
pub open spec fn fields_from(s: Seq<char>, sep: char, i: int) -> Seq<Seq<char>>
    decreases s.len() + 1 - i,
{
    if i < 0 || i > s.len() {
        Seq::empty()
    } else {
        let e = next_char(s, sep, i);
        if e < i || e > s.len() {
            Seq::empty()
        } else if e < s.len() {
            seq![s.subrange(i, e)] + fields_from(s, sep, e + 1)
        } else {
            seq![s.subrange(i, e)]
        }
    }
}

/// The fields of `s` separated by `sep` (`str::split`).
pub open spec fn fields(s: Seq<char>, sep: char) -> Seq<Seq<char>> {
    fields_from(s, sep, 0)
}

/// Index of the first whitespace character of `s` at or after `i` (the
/// length when there is none).
pub open spec fn next_space(s: Seq<char>, i: int) -> int
    decreases s.len() - i,
{
    if i >= s.len() {
        s.len() as int
    } else if is_space(s[i]) {
        i
    } else {
        next_space(s, i + 1)
    }
}

/// The first whitespace-separated token of `s` (`split_whitespace().next()`).
pub open spec fn first_token(s: Seq<char>) -> Option<Seq<char>> {
    let t = trim_start(s);
    if t.len() == 0 {
        None
    } else {
        Some(t.subrange(0, next_space(t, 0)))
    }
}

/// The first of `ls` that contains `needle`.
pub open spec fn first_containing(ls: Seq<Seq<char>>, needle: Seq<char>) -> Option<Seq<char>>
    decreases ls.len(),
{
    if ls.len() == 0 {
        None
    } else if crate::text::contains_seq(ls[0], needle) {
        Some(ls[0])
    } else {
        first_containing(ls.drop_first(), needle)
    }
}

/// The value of a digit character: `0`-`9`, then `a`-`z` and `A`-`Z` from 10
/// on (`char::to_digit`); 99 for any other character.
pub open spec fn digit_of(c: char) -> int {
    if '0' <= c && c <= '9' {
        (c as int) - ('0' as int)
    } else if 'a' <= c && c <= 'z' {
        (c as int) - ('a' as int) + 10
    } else if 'A' <= c && c <= 'Z' {
        (c as int) - ('A' as int) + 10
    } else {
        99
    }
}

/// The number that the digits of `s` spell in base `radix`.
pub open spec fn radix_value(s: Seq<char>, radix: int) -> int
    decreases s.len(),
{
    if s.len() == 0 {
        0
    } else {
        radix_value(s.drop_last(), radix) * radix + digit_of(s.last())
    }
}

/// What `u32::from_str_radix(s, radix)` gives back: an optional `+`, then one
/// or more digits of the radix, whose value fits in a `u32`.
pub open spec fn parsed_u32(s: Seq<char>, radix: u32) -> Option<u32> {
    let body = if s.len() > 0 && s[0] == '+' {
        s.drop_first()
    } else {
        s
    };
    if body.len() > 0 && (forall|i: int| 0 <= i < body.len() ==> #[trigger] digit_of(body[i]) < radix)
        && radix_value(body, radix as int) <= u32::MAX {
        Some(radix_value(body, radix as int) as u32)
    } else {
        None
    }
}

/// `u32::from_str_radix`. Its documentation: the text is an optional `+`
/// followed by digits of the radix only (`0`-`9`, `a`-`z`, `A`-`Z`, those
/// below the radix); anything else, an empty text, or a value beyond
/// `u32::MAX` is an error. The contract says exactly that, for the two
/// radixes this library reads.
#[verifier::external_body]
pub(crate) fn u32_from_radix(s: &str, radix: u32) -> (r: Option<u32>)
    requires
        radix == 10 || radix == 16,
    ensures
        r == parsed_u32(s@, radix),
{
    u32::from_str_radix(s, radix).ok()
}

/// Index of the first `c` in `v` at or after `i` (the length when there is none).
pub fn find_char_from(v: &Vec<char>, c: char, i: usize) -> (e: usize)
    requires
        i <= v.len(),
    ensures
        e == next_char(v@, c, i as int),
        i <= e <= v.len(),
{
    let mut e = i;
    while e < v.len()
        invariant
            i <= e <= v.len(),
            next_char(v@, c, i as int) == next_char(v@, c, e as int),
        decreases v.len() - e,
    {
        if v[e] == c {
            return e;
        }
        e = e + 1;
    }
    e
}

/// The lines of `v` (`str::lines`).
pub fn split_lines(v: &Vec<char>) -> (r: Vec<Vec<char>>)
    ensures
        r@.map_values(|l: Vec<char>| l@) == lines(v@),
{
    let mut r: Vec<Vec<char>> = Vec::new();
    let mut i: usize = 0;
    while i < v.len()
        invariant
            i <= v.len(),
            lines(v@) == r@.map_values(|l: Vec<char>| l@) + lines_from(v@, i as int),
        decreases v.len() - i,
    {
        let e = find_char_from(v, '\n', i);
        let end = if e < v.len() && e > i && v[e - 1] == '\r' {
            e - 1
        } else {
            e
        };
        let line = slice_chars(v, i, end);
        let ghost before = r@.map_values(|l: Vec<char>| l@);
        r.push(line);
        proof {
            assert(line@ == line_text(v@, i as int, e as int));
            assert(r@.map_values(|l: Vec<char>| l@) =~= before + seq![line@]);
        }
        if e < v.len() {
            assert(lines_from(v@, i as int) == seq![line_text(v@, i as int, e as int)]
                + lines_from(v@, e + 1));
            i = e + 1;
        } else {
            assert(lines_from(v@, i as int) == seq![line_text(v@, i as int, e as int)]);
            i = v.len();
            assert(lines_from(v@, i as int) =~= Seq::<Seq<char>>::empty());
        }
        proof {
            assert(lines(v@) =~= r@.map_values(|l: Vec<char>| l@) + lines_from(v@, i as int));
        }
    }
    assert(lines_from(v@, i as int) =~= Seq::<Seq<char>>::empty());
    assert(lines(v@) =~= r@.map_values(|l: Vec<char>| l@));
    r
}

/// The fields of `v` separated by `sep` (`str::split`).
pub fn split_on(v: &Vec<char>, sep: char) -> (r: Vec<Vec<char>>)
    ensures
        r@.map_values(|l: Vec<char>| l@) == fields(v@, sep),
        r@.len() >= 1,
{
    let mut r: Vec<Vec<char>> = Vec::new();
    let mut i: usize = 0;
    let mut done = false;
    while !done
        invariant
            i <= v.len(),
            !done ==> fields(v@, sep) == r@.map_values(|l: Vec<char>| l@) + fields_from(
                v@,
                sep,
                i as int,
            ),
            done ==> fields(v@, sep) == r@.map_values(|l: Vec<char>| l@),
            done ==> r@.len() >= 1,
        decreases v.len() - i + (if done { 0int } else { 1int }),
    {
        let e = find_char_from(v, sep, i);
        let field = slice_chars(v, i, e);
        let ghost before = r@.map_values(|l: Vec<char>| l@);
        r.push(field);
        assert(r@.map_values(|l: Vec<char>| l@) =~= before + seq![field@]);
        if e < v.len() {
            assert(fields_from(v@, sep, i as int) == seq![field@] + fields_from(v@, sep, e + 1));
            i = e + 1;
            assert(fields(v@, sep) =~= r@.map_values(|l: Vec<char>| l@) + fields_from(
                v@,
                sep,
                i as int,
            ));
        } else {
            assert(fields_from(v@, sep, i as int) == seq![field@]);
            done = true;
            assert(fields(v@, sep) =~= r@.map_values(|l: Vec<char>| l@));
        }
    }
    r
}

/// The first whitespace-separated token of `v` (`split_whitespace().next()`).
pub fn first_token_of(v: &Vec<char>) -> (r: Option<Vec<char>>)
    ensures
        match first_token(v@) {
            None => r is None,
            Some(t) => r matches Some(x) && x@ == t,
        },
{
    let t = crate::text::trim_start_chars(v);
    if t.len() == 0 {
        return None;
    }
    let mut e: usize = 0;
    while e < t.len() && !is_whitespace(t[e])
        invariant
            e <= t.len(),
            next_space(t@, 0) == next_space(t@, e as int),
        decreases t.len() - e,
    {
        e = e + 1;
    }
    proof {
        if e < t.len() {
            assert(is_space(t@[e as int]));
            assert(next_space(t@, e as int) == e);
        }
    }
    Some(slice_chars(&t, 0, e))
}

/// The first line of `v` that contains `needle`.
pub fn line_containing(v: &Vec<char>, needle: &str) -> (r: Option<Vec<char>>)
    ensures
        match first_containing(lines(v@), needle@) {
            None => r is None,
            Some(l) => r matches Some(x) && x@ == l,
        },
{
    let ls = split_lines(v);
    let n = chars_of(needle);
    let ghost all = ls@.map_values(|l: Vec<char>| l@);
    assert(all.subrange(0, all.len() as int) =~= all);
    let mut i: usize = 0;
    while i < ls.len()
        invariant
            i <= ls.len(),
            all == ls@.map_values(|l: Vec<char>| l@),
            all == lines(v@),
            n@ == needle@,
            first_containing(all, needle@) == first_containing(all.subrange(i as int, all.len() as int), needle@),
        decreases ls.len() - i,
    {
        let ghost rest = all.subrange(i as int, all.len() as int);
        assert(rest[0] == ls@[i as int]@);
        if crate::text::contains_chars(&ls[i], &n) {
            return Some(slice_chars(&ls[i], 0, ls[i].len()));
        }
        assert(rest.drop_first() =~= all.subrange(i + 1, all.len() as int));
        i = i + 1;
    }
    assert(all.subrange(i as int, all.len() as int) =~= Seq::<Seq<char>>::empty());
    None
}

} // verus!
