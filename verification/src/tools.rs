//! The tool registry's records and the rules a custom tool must satisfy
//! before it is stored, overwritten, deleted or dispatched.

use crate::error::AppError;
use crate::text::{
    blank, chars_eq, chars_of, is_blank, starts_with, starts_with_chars, string_from, trim,
    trim_chars,
};
use vstd::prelude::*;
use vstd::string::*;

verus! {

/// One HTTP header sent by an HTTP tool.
#[derive(Debug)]
pub struct ToolHeader {
    pub key: String,
    pub value: String,
}

/// How an HTTP tool is called.
#[derive(Debug)]
pub struct HttpToolConfig {
    pub method: String,
    pub url: String,
    pub headers: Vec<ToolHeader>,
}

/// How a local tool is spawned: the model's arguments travel on stdin, the
/// command line is static.
#[derive(Debug)]
pub struct LocalToolConfig {
    /// Executable to run (a bare name resolved on PATH, or a path).
    pub command: String,
    pub args: Vec<String>,
    /// Working directory of the child.
    pub cwd: Option<String>,
    /// Hard kill deadline in seconds.
    pub timeout_secs: Option<u64>,
}

/// A tool as stored in the registry. `parameters` is the JSON Schema text.
#[derive(Debug)]
pub struct ToolConfig {
    pub name: String,
    pub display_name: String,
    pub description: String,
    pub kind: String,
    pub enabled: bool,
    pub built_in: bool,
    pub parameters: String,
    pub http: Option<HttpToolConfig>,
    pub local: Option<LocalToolConfig>,
    pub updated_at: String,
}

/// A custom tool submitted for storage. `parameters` is the JSON Schema text.
#[derive(Debug)]
pub struct ToolConfigInput {
    pub name: String,
    pub display_name: String,
    pub description: String,
    pub kind: String,
    pub enabled: bool,
    pub parameters: String,
    pub http: Option<HttpToolConfig>,
    pub local: Option<LocalToolConfig>,
}

/// What the file system says about the paths a local tool names: whether the
/// command, and the working directory, are absolute paths that do not exist.
#[derive(Debug)]
pub struct LocalPathStatus {
    pub command_missing: bool,
    pub cwd_missing: bool,
}

pub open spec fn is_ascii_alpha(c: char) -> bool {
    ('a' <= c && c <= 'z') || ('A' <= c && c <= 'Z')
}

pub open spec fn is_ascii_digit(c: char) -> bool {
    '0' <= c && c <= '9'
}

/// `[_A-Za-z][_A-Za-z0-9]*`
pub open spec fn valid_tool_name(s: Seq<char>) -> bool {
    &&& s.len() > 0
    &&& (s[0] == '_' || is_ascii_alpha(s[0]))
    &&& forall|i: int|
        1 <= i < s.len() ==> (#[trigger] s[i] == '_' || is_ascii_alpha(s[i]) || is_ascii_digit(
            s[i],
        ))
}

/// Whether `name` is a valid tool identifier: a letter or underscore followed
/// by letters, digits and underscores.
pub fn is_valid_tool_name(name: &str) -> (b: bool)
    ensures
        b == valid_tool_name(name@),
{
    let v = chars_of(name);
    if v.len() == 0 {
        return false;
    }
    let first = v[0];
    if !(first == '_' || ('a' <= first && first <= 'z') || ('A' <= first && first <= 'Z')) {
        return false;
    }
    let mut i: usize = 1;
    while i < v.len()
        invariant
            1 <= i <= v.len(),
            v@ == name@,
            forall|k: int|
                1 <= k < i ==> (#[trigger] v@[k] == '_' || is_ascii_alpha(v@[k]) || is_ascii_digit(
                    v@[k],
                )),
        decreases v.len() - i,
    {
        let c = v[i];
        if !(c == '_' || ('a' <= c && c <= 'z') || ('A' <= c && c <= 'Z') || ('0' <= c && c
            <= '9')) {
            assert(v@[i as int] == c);
            assert(!(v@[i as int] == '_' || is_ascii_alpha(v@[i as int]) || is_ascii_digit(
                v@[i as int],
            )));
            return false;
        }
        i = i + 1;
    }
    true
}

/// `char::to_ascii_uppercase`.
pub open spec fn ascii_upper(c: char) -> char {
    if 'a' <= c && c <= 'z' {
        ((c as u32) - 32) as char
    } else {
        c
    }
}

pub open spec fn upper(s: Seq<char>) -> Seq<char> {
    s.map_values(|c: char| ascii_upper(c))
}

fn to_ascii_upper(c: char) -> (r: char)
    ensures
        r == ascii_upper(c),
{
    if 'a' <= c && c <= 'z' {
        let b = (c as u8) - 32;
        b as char
    } else {
        c
    }
}

/// The characters of `s` with ASCII letters upper-cased.
pub fn upper_chars(s: &str) -> (r: Vec<char>)
    ensures
        r@ == upper(s@),
{
    let v = chars_of(s);
    let mut r: Vec<char> = Vec::new();
    let mut i: usize = 0;
    while i < v.len()
        invariant
            i <= v.len(),
            v@ == s@,
            r@ == upper(v@.subrange(0, i as int)),
        decreases v.len() - i,
    {
        r.push(to_ascii_upper(v[i]));
        i = i + 1;
        assert(r@ =~= upper(v@.subrange(0, i as int)));
    }
    assert(v@.subrange(0, v.len() as int) =~= v@);
    r
}

/// HTTP methods an HTTP tool may use.
pub open spec fn allowed_method(m: Seq<char>) -> bool {
    let u = upper(m);
    u == "GET"@ || u == "POST"@ || u == "PUT"@ || u == "PATCH"@
}

/// The `"type"` member of the JSON object in `raw`, when `raw` parses as JSON
/// and that member is a string.
pub uninterp spec fn json_type_member(raw: Seq<char>) -> Option<Seq<char>>;

/// `serde_json::from_str::<Value>(raw)` followed by `.get("type")` and
/// `Value::as_str`.
#[verifier::external_body]
fn schema_type(raw: &str) -> (r: Option<String>)
    ensures
        r is Some <==> json_type_member(raw@) is Some,
        r is Some ==> r->0@ == json_type_member(raw@)->0,
{
    match serde_json::from_str::<serde_json::Value>(raw) {
        Ok(v) => v.get("type").and_then(serde_json::Value::as_str).map(str::to_string),
        Err(_) => None,
    }
}

/// Whether a parameter schema declares `"type": "object"`.
pub open spec fn object_schema(raw: Seq<char>) -> bool {
    json_type_member(raw) == Some("object"@)
}

// ---------------------------------------------------------------------------
// URL checks for HTTP tools
// ---------------------------------------------------------------------------

/// The scheme-less rest of an `http://` or `https://` URL.
pub open spec fn after_scheme(url: Seq<char>) -> Option<Seq<char>> {
    if starts_with(url, "http://"@) {
        Some(url.subrange(7, url.len() as int))
    } else if starts_with(url, "https://"@) {
        Some(url.subrange(8, url.len() as int))
    } else {
        None
    }
}

/// Number of leading characters of `s` for which `stop` does not hold.
pub open spec fn run_until(s: Seq<char>, stop: spec_fn(char) -> bool) -> int
    decreases s.len(),
{
    if s.len() == 0 || stop(s[0]) {
        0
    } else {
        1 + run_until(s.drop_first(), stop)
    }
}

pub open spec fn ends_authority(c: char) -> bool {
    c == '/' || c == '?' || c == '#'
}

/// The characters the host scanner stops at: `which` 0 ends the authority
/// (`/`, `?`, `#`), 1 closes an IPv6 literal (`]`), 2 starts a port (`:`),
/// 3 separates dotted-quad components (`.`).
pub open spec fn stops(which: u8, c: char) -> bool {
    if which == 0 {
        ends_authority(c)
    } else if which == 1 {
        c == ']'
    } else if which == 2 {
        c == ':'
    } else {
        c == '.'
    }
}

/// Position just after the last `@` (0 when there is none).
pub open spec fn after_last_at(s: Seq<char>) -> int
    decreases s.len(),
{
    if s.len() == 0 {
        0
    } else if s.last() == '@' {
        s.len() as int
    } else {
        after_last_at(s.drop_last())
    }
}

/// The host named by the part of a URL after its scheme: the authority ends
/// at the first `/`, `?` or `#`; user information before the last `@` and a
/// `:port` are dropped; an IPv6 literal loses its brackets.
pub open spec fn url_host(rest: Seq<char>) -> Seq<char> {
    let auth = rest.subrange(0, run_until(rest, |c: char| stops(0, c)));
    let hp = auth.subrange(after_last_at(auth), auth.len() as int);
    if hp.len() > 0 && hp[0] == '[' {
        let inner = hp.drop_first();
        inner.subrange(0, run_until(inner, |c: char| stops(1, c)))
    } else {
        hp.subrange(0, run_until(hp, |c: char| stops(2, c)))
    }
}

proof fn lemma_run_until_stop(s: Seq<char>, stop: spec_fn(char) -> bool, i: int)
    requires
        0 <= i <= s.len(),
        i < s.len() ==> stop(s[i]),
        forall|k: int| 0 <= k < i ==> !stop(#[trigger] s[k]),
    ensures
        run_until(s, stop) == i,
    decreases i,
{
    if i > 0 {
        assert forall|k: int| 0 <= k < i - 1 implies !stop(#[trigger] s.drop_first()[k]) by {
            assert(s.drop_first()[k] == s[k + 1]);
        }
        lemma_run_until_stop(s.drop_first(), stop, i - 1);
    }
}

proof fn lemma_after_last_at(s: Seq<char>, i: int)
    requires
        0 <= i <= s.len(),
        i > 0 ==> s[i - 1] == '@',
        forall|k: int| i <= k < s.len() ==> #[trigger] s[k] != '@',
    ensures
        after_last_at(s) == i,
    decreases s.len(),
{
    if s.len() > i {
        assert(s.last() != '@');
        assert forall|k: int| i <= k < s.drop_last().len() implies #[trigger] s.drop_last()[k]
            != '@' by {
            assert(s.drop_last()[k] == s[k]);
        }
        lemma_after_last_at(s.drop_last(), i);
    }
}

/// Index of the first character of `v` the scanner `which` stops at (its
/// length when there is none).
fn scan_until(v: &Vec<char>, which: u8) -> (i: usize)
    requires
        which < 4,
    ensures
        i == run_until(v@, |c: char| stops(which, c)),
        i <= v.len(),
{
    let mut i: usize = 0;
    while i < v.len()
        invariant
            i <= v.len(),
            forall|k: int| 0 <= k < i ==> !stops(which, #[trigger] v@[k]),
        ensures
            i <= v.len(),
            forall|k: int| 0 <= k < i ==> !stops(which, #[trigger] v@[k]),
            i < v.len() ==> stops(which, v@[i as int]),
        decreases v.len() - i,
    {
        let c = v[i];
        let hit = if which == 0 {
            c == '/' || c == '?' || c == '#'
        } else if which == 1 {
            c == ']'
        } else if which == 2 {
            c == ':'
        } else {
            c == '.'
        };
        if hit {
            break;
        }
        i = i + 1;
    }
    proof {
        lemma_run_until_stop(v@, |c: char| stops(which, c), i as int);
    }
    i
}

/// The host of a URL whose scheme has been removed (see `url_host`).
pub fn host_of(rest: &Vec<char>) -> (h: Vec<char>)
    ensures
        h@ == url_host(rest@),
{
    let a = scan_until(rest, 0);
    let auth = crate::text::slice_chars(rest, 0, a);
    let mut j = auth.len();
    while j > 0
        invariant
            j <= auth.len(),
            forall|k: int| j <= k < auth.len() ==> #[trigger] auth@[k] != '@',
        ensures
            j <= auth.len(),
            forall|k: int| j <= k < auth.len() ==> #[trigger] auth@[k] != '@',
            j > 0 ==> auth@[j - 1] == '@',
        decreases j,
    {
        if auth[j - 1] == '@' {
            break;
        }
        j = j - 1;
    }
    proof {
        lemma_after_last_at(auth@, j as int);
    }
    let hp = crate::text::slice_chars(&auth, j, auth.len());
    if hp.len() > 0 && hp[0] == '[' {
        let inner = crate::text::slice_chars(&hp, 1, hp.len());
        assert(inner@ =~= hp@.drop_first());
        let e = scan_until(&inner, 1);
        crate::text::slice_chars(&inner, 0, e)
    } else {
        let e = scan_until(&hp, 2);
        crate::text::slice_chars(&hp, 0, e)
    }
}

/// Value of a run of ASCII digits.
pub open spec fn digits_value(s: Seq<char>) -> int
    decreases s.len(),
{
    if s.len() == 0 {
        0
    } else {
        digits_value(s.drop_last()) * 10 + ((s.last() as u32) - ('0' as u32))
    }
}

/// A dotted-quad component: one to three digits with a value of at most 255.
pub open spec fn octet_value(s: Seq<char>) -> Option<int> {
    if 1 <= s.len() <= 3 && (forall|i: int| 0 <= i < s.len() ==> is_ascii_digit(#[trigger] s[i]))
        && digits_value(s) <= 255 {
        Some(digits_value(s))
    } else {
        None
    }
}

/// The four components of a dotted-quad IPv4 literal, if `h` is one.
pub open spec fn ipv4_octets(h: Seq<char>) -> Option<Seq<int>> {
    let n1 = run_until(h, |c: char| stops(3, c));
    let r1 = h.subrange(n1 + 1, h.len() as int);
    let n2 = run_until(r1, |c: char| stops(3, c));
    let r2 = r1.subrange(n2 + 1, r1.len() as int);
    let n3 = run_until(r2, |c: char| stops(3, c));
    let r3 = r2.subrange(n3 + 1, r2.len() as int);
    let n4 = run_until(r3, |c: char| stops(3, c));
    if n1 < h.len() && n2 < r1.len() && n3 < r2.len() && n4 == r3.len() {
        match (
            octet_value(h.subrange(0, n1)),
            octet_value(r1.subrange(0, n2)),
            octet_value(r2.subrange(0, n3)),
            octet_value(r3),
        ) {
            (Some(a), Some(b), Some(c), Some(d)) => Some(seq![a, b, c, d]),
            _ => None,
        }
    } else {
        None
    }
}

/// The value of a dotted-quad component.
fn octet_of(s: &Vec<char>) -> (r: Option<u32>)
    ensures
        r is Some <==> octet_value(s@) is Some,
        r is Some ==> r->0 as int == octet_value(s@)->0,
{
    if s.len() < 1 || s.len() > 3 {
        return None;
    }
    let mut value: u32 = 0;
    let mut i: usize = 0;
    while i < s.len()
        invariant
            1 <= s.len() <= 3,
            i <= s.len(),
            forall|k: int| 0 <= k < i ==> is_ascii_digit(#[trigger] s@[k]),
            value == digits_value(s@.subrange(0, i as int)),
            value < 1000,
            i == 0 ==> value == 0,
            i == 1 ==> value < 10,
            i == 2 ==> value < 100,
        decreases s.len() - i,
    {
        let c = s[i];
        if !('0' <= c && c <= '9') {
            return None;
        }
        assert(s@.subrange(0, i + 1).drop_last() =~= s@.subrange(0, i as int));
        value = value * 10 + ((c as u32) - ('0' as u32));
        i = i + 1;
    }
    assert(s@.subrange(0, s.len() as int) =~= s@);
    if value <= 255 {
        Some(value)
    } else {
        None
    }
}

/// The components of a dotted-quad IPv4 literal.
fn parse_ipv4(h: &Vec<char>) -> (r: Option<Vec<u32>>)
    ensures
        match ipv4_octets(h@) {
            Some(o) => r matches Some(v) && v@.len() == 4 && forall|i: int|
                0 <= i < 4 ==> v@[i] as int == #[trigger] o[i],
            None => r is None,
        },
{
    let n1 = scan_until(h, 3);
    if n1 >= h.len() {
        return None;
    }
    let r1 = crate::text::slice_chars(h, n1 + 1, h.len());
    let n2 = scan_until(&r1, 3);
    if n2 >= r1.len() {
        return None;
    }
    let r2 = crate::text::slice_chars(&r1, n2 + 1, r1.len());
    let n3 = scan_until(&r2, 3);
    if n3 >= r2.len() {
        return None;
    }
    let r3 = crate::text::slice_chars(&r2, n3 + 1, r2.len());
    let n4 = scan_until(&r3, 3);
    if n4 != r3.len() {
        return None;
    }
    let p1 = crate::text::slice_chars(h, 0, n1);
    let p2 = crate::text::slice_chars(&r1, 0, n2);
    let p3 = crate::text::slice_chars(&r2, 0, n3);
    let a = octet_of(&p1);
    let b = octet_of(&p2);
    let c = octet_of(&p3);
    let d = octet_of(&r3);
    proof {
        assert(r3@ =~= r3@.subrange(0, r3@.len() as int));
    }
    match (a, b, c, d) {
        (Some(a), Some(b), Some(c), Some(d)) => {
            let mut v: Vec<u32> = Vec::new();
            v.push(a);
            v.push(b);
            v.push(c);
            v.push(d);
            proof {
                let hh = h@;
                assert(r1@ == hh.subrange(n1 + 1, hh.len() as int));
                assert(octet_value(hh.subrange(0, n1 as int)) == Some(a as int));
                assert(octet_value(r1@.subrange(0, n2 as int)) == Some(b as int));
                assert(octet_value(r2@.subrange(0, n3 as int)) == Some(c as int));
                assert(octet_value(r3@) == Some(d as int));
                assert(ipv4_octets(hh) == Some(seq![a as int, b as int, c as int, d as int]));
                let o = ipv4_octets(h@)->0;
                assert(o == seq![a as int, b as int, c as int, d as int]);
                assert forall|i: int| 0 <= i < 4 implies v@[i] as int == #[trigger] o[i] by {
                    if i == 0 {
                    } else if i == 1 {
                    } else if i == 2 {
                    } else {
                    }
                }
            }
            Some(v)
        },
        _ => None,
    }
}

/// IPv4 addresses an HTTP tool must not reach: the unspecified network 0/8,
/// loopback 127/8, private 10/8, 172.16/12 and 192.168/16, link-local
/// 169.254/16, and the carrier-grade NAT range 100.64/10.
pub open spec fn restricted_ipv4(o: Seq<int>) -> bool {
    o[0] == 0 || o[0] == 127 || o[0] == 10 || (o[0] == 172 && 16 <= o[1] && o[1] <= 31) || (o[0]
        == 192 && o[1] == 168) || (o[0] == 169 && o[1] == 254) || (o[0] == 100 && 64 <= o[1]
        && o[1] <= 127)
}

/// IPv6 literals an HTTP tool must not reach, by their written form: the
/// loopback `::1`, the unspecified `::`, unique-local `fc..`/`fd..` and
/// link-local `fe8.`..`feb.`; only text with a `:` is an IPv6 literal, so
/// host names such as `fdroid.org` are not caught.
pub open spec fn restricted_ipv6_text(h: Seq<char>) -> bool {
    h == "::1"@ || h == "::"@ || (h.len() >= 2 && h[0] == 'f' && (h[1] == 'c' || h[1] == 'd')
        && h.contains(':')) || (h.len() >= 3 && h[0] == 'f' && h[1] == 'e' && (h[2] == '8' || h[2]
        == '9' || h[2] == 'a' || h[2] == 'b') && h.contains(':'))
}

/// Host names that always mean this machine.
pub open spec fn local_name(host: Seq<char>) -> bool {
    let h = crate::text::lower(host);
    h == "localhost"@ || (h.len() > 10 && h.subrange(h.len() - 10, h.len() as int)
        == ".localhost"@)
}

pub open spec fn scheme_message() -> Seq<char> {
    "HTTP 工具 URL 必须以 http:// 或 https:// 开头"@
}

pub open spec fn missing_host_message() -> Seq<char> {
    "HTTP 工具 URL 缺少主机名"@
}

pub open spec fn restricted_host_message() -> Seq<char> {
    "HTTP 工具 URL 不能指向本机、内网或链路本地地址"@
}

/// The error for a URL an HTTP tool may not use, if any.
pub open spec fn url_problem(url: Seq<char>) -> Option<Seq<char>> {
    match after_scheme(url) {
        None => Some(scheme_message()),
        Some(rest) => {
            let host = url_host(rest);
            if host.len() == 0 {
                Some(missing_host_message())
            } else if local_name(host) || (ipv4_octets(host) matches Some(o) && restricted_ipv4(o))
                || restricted_ipv6_text(crate::text::lower(host)) {
                Some(restricted_host_message())
            } else {
                None
            }
        },
    }
}

/// Check the syntax of an HTTP tool's URL: an `http` or `https` scheme and a
/// host that is not this machine or a private or link-local address literal.
pub fn validate_url_syntax(url: &str) -> (r: Result<(), AppError>)
    ensures
        match url_problem(url@) {
            None => r is Ok,
            Some(m) => r matches Err(AppError::InvalidInput(e)) && e@ == m,
        },
{
    let v = chars_of(url);
    let http = chars_of("http://");
    let https = chars_of("https://");
    proof {
        reveal_strlit("http://");
        reveal_strlit("https://");
    }
    let rest = if starts_with_chars(&v, &http) {
        crate::text::slice_chars(&v, 7, v.len())
    } else if starts_with_chars(&v, &https) {
        crate::text::slice_chars(&v, 8, v.len())
    } else {
        return Err(AppError::InvalidInput(String::from_str("HTTP 工具 URL 必须以 http:// 或 https:// 开头")));
    };
    let host = host_of(&rest);
    if host.len() == 0 {
        return Err(AppError::InvalidInput(String::from_str("HTTP 工具 URL 缺少主机名")));
    }
    let lower = crate::text::lower_chars(&host);
    let localhost = chars_of("localhost");
    let dot_localhost = chars_of(".localhost");
    proof {
        reveal_strlit(".localhost");
    }
    let is_local = crate::text::chars_eq(&lower, &localhost) || (lower.len() > 10
        && crate::text::matches_at(&lower, &dot_localhost, lower.len() - 10));
    proof {
        if lower.len() > 10 {
            let h = lower@;
            assert(crate::text::occurs_at(h, dot_localhost@, h.len() - 10) == (h.subrange(
                h.len() - 10,
                h.len() as int,
            ) == ".localhost"@));
        }
    }
    let restricted_v4 = match parse_ipv4(&host) {
        Some(o) => o[0] == 0 || o[0] == 127 || o[0] == 10 || (o[0] == 172 && 16 <= o[1] && o[1]
            <= 31) || (o[0] == 192 && o[1] == 168) || (o[0] == 169 && o[1] == 254) || (o[0]
            == 100 && 64 <= o[1] && o[1] <= 127),
        None => false,
    };
    let v6_loop = chars_of("::1");
    let v6_any = chars_of("::");
    let restricted_v6 = crate::text::chars_eq(&lower, &v6_loop) || crate::text::chars_eq(
        &lower,
        &v6_any,
    ) || (lower.len() >= 2 && lower[0] == 'f' && (lower[1] == 'c' || lower[1] == 'd')
        && crate::text::has_char(&lower, ':')) || (
    lower.len() >= 3 && lower[0] == 'f' && lower[1] == 'e' && (lower[2] == '8' || lower[2] == '9'
        || lower[2] == 'a' || lower[2] == 'b') && crate::text::has_char(&lower, ':'));
    let restricted = restricted_v4 || restricted_v6;
    if is_local || restricted {
        return Err(
            AppError::InvalidInput(String::from_str("HTTP 工具 URL 不能指向本机、内网或链路本地地址")),
        );
    }
    Ok(())
}

// ---------------------------------------------------------------------------
// Custom tool validation
// ---------------------------------------------------------------------------

pub open spec fn name_message() -> Seq<char> {
    "工具名称只能包含英文字母、数字和下划线，且必须以字母或下划线开头"@
}

pub open spec fn http_problem(http: Option<HttpToolConfig>) -> Option<Seq<char>> {
    match http {
        None => Some("HTTP 工具必须配置 http"@),
        Some(h) => if !allowed_method(h.method@) {
            Some("HTTP 工具 method 仅支持 GET/POST/PUT/PATCH"@)
        } else {
            url_problem(h.url@)
        },
    }
}

pub open spec fn local_problem(local: Option<LocalToolConfig>, paths: LocalPathStatus) -> Option<Seq<char>> {
    match local {
        None => Some("local 工具必须配置 local"@),
        Some(l) => if is_blank(l.command@) {
            Some("local 工具的 command 不能为空"@)
        } else if paths.command_missing {
            Some("local 工具 command 路径不存在: "@ + l.command@)
        } else if l.cwd is Some && paths.cwd_missing {
            Some("local 工具 cwd 路径不存在: "@ + l.cwd->0@)
        } else {
            None
        },
    }
}

/// The first rule a custom tool breaks, as the message shown to the user.
pub open spec fn input_problem(input: ToolConfigInput, paths: LocalPathStatus) -> Option<Seq<char>> {
    if !valid_tool_name(input.name@) {
        Some(name_message())
    } else if is_blank(input.display_name@) {
        Some("工具显示名不能为空"@)
    } else if is_blank(input.description@) {
        Some("工具描述不能为空"@)
    } else if !object_schema(input.parameters@) {
        Some("工具 parameters 必须是 JSON Schema object"@)
    } else if input.kind@ == "http"@ {
        http_problem(input.http)
    } else if input.kind@ == "local"@ {
        local_problem(input.local, paths)
    } else {
        Some("不支持的工具类型: "@ + input.kind@ + "（当前支持 http / local）"@)
    }
}

pub(crate) fn invalid(msg: &str) -> (e: AppError)
    ensures
        e matches AppError::InvalidInput(m) && m@ == msg@,
{
    AppError::InvalidInput(String::from_str(msg))
}

pub(crate) fn invalid_about(prefix: &str, detail: &str) -> (e: AppError)
    ensures
        e matches AppError::InvalidInput(m) && m@ == prefix@ + detail@,
{
    let mut m = String::from_str(prefix);
    m.append(detail);
    AppError::InvalidInput(m)
}

pub(crate) fn invalid_with(prefix: &str, detail: &str, suffix: &str) -> (e: AppError)
    ensures
        e matches AppError::InvalidInput(m) && m@ == prefix@ + detail@ + suffix@,
{
    let mut m = String::from_str(prefix);
    m.append(detail);
    m.append(suffix);
    AppError::InvalidInput(m)
}

fn validate_http_tool(http: &Option<HttpToolConfig>) -> (r: Result<(), AppError>)
    ensures
        match http_problem(*http) {
            None => r is Ok,
            Some(m) => r matches Err(AppError::InvalidInput(e)) && e@ == m,
        },
{
    let h = match http {
        None => {
            return Err(invalid("HTTP 工具必须配置 http"));
        },
        Some(h) => h,
    };
    let method = upper_chars(h.method.as_str());
    let get = chars_of("GET");
    let post = chars_of("POST");
    let put = chars_of("PUT");
    let patch = chars_of("PATCH");
    if !(chars_eq(&method, &get) || chars_eq(&method, &post) || chars_eq(&method, &put) || chars_eq(
        &method,
        &patch,
    )) {
        return Err(invalid("HTTP 工具 method 仅支持 GET/POST/PUT/PATCH"));
    }
    validate_url_syntax(h.url.as_str())
}

fn validate_local_tool(local: &Option<LocalToolConfig>, paths: &LocalPathStatus) -> (r: Result<(), AppError>)
    ensures
        match local_problem(*local, *paths) {
            None => r is Ok,
            Some(m) => r matches Err(AppError::InvalidInput(e)) && e@ == m,
        },
{
    let l = match local {
        None => {
            return Err(invalid("local 工具必须配置 local"));
        },
        Some(l) => l,
    };
    if blank(l.command.as_str()) {
        return Err(invalid("local 工具的 command 不能为空"));
    }
    if paths.command_missing {
        return Err(invalid_about("local 工具 command 路径不存在: ", l.command.as_str()));
    }
    if let Some(cwd) = &l.cwd {
        if paths.cwd_missing {
            return Err(invalid_about("local 工具 cwd 路径不存在: ", cwd.as_str()));
        }
    }
    Ok(())
}

/// Validate a custom tool before it is stored.
pub fn validate_tool_input(input: &ToolConfigInput, paths: &LocalPathStatus) -> (r: Result<(), AppError>)
    ensures
        match input_problem(*input, *paths) {
            None => r is Ok,
            Some(m) => r matches Err(AppError::InvalidInput(e)) && e@ == m,
        },
{
    if !is_valid_tool_name(input.name.as_str()) {
        return Err(invalid("工具名称只能包含英文字母、数字和下划线，且必须以字母或下划线开头"));
    }
    if blank(input.display_name.as_str()) {
        return Err(invalid("工具显示名不能为空"));
    }
    if blank(input.description.as_str()) {
        return Err(invalid("工具描述不能为空"));
    }
    let object = match schema_type(input.parameters.as_str()) {
        Some(t) => crate::text::str_eq(t.as_str(), "object"),
        None => false,
    };
    if !object {
        return Err(invalid("工具 parameters 必须是 JSON Schema object"));
    }
    if crate::text::str_eq(input.kind.as_str(), "http") {
        validate_http_tool(&input.http)
    } else if crate::text::str_eq(input.kind.as_str(), "local") {
        validate_local_tool(&input.local, paths)
    } else {
        Err(invalid_with("不支持的工具类型: ", input.kind.as_str(), "（当前支持 http / local）"))
    }
}

/// Whether a custom tool may be stored over the existing entry of the same
/// name (`existing_built_in` tells whether that entry is a built-in tool).
pub fn check_custom_tool_save(
    input: &ToolConfigInput,
    paths: &LocalPathStatus,
    existing_built_in: bool,
) -> (r: Result<(), AppError>)
    ensures
        match input_problem(*input, *paths) {
            Some(m) => r matches Err(AppError::InvalidInput(e)) && e@ == m,
            None => if existing_built_in {
                r matches Err(AppError::InvalidInput(e)) && e@ == "内置工具不能被自定义工具覆盖"@
            } else {
                r is Ok
            },
        },
{
    validate_tool_input(input, paths)?;
    if existing_built_in {
        return Err(invalid("内置工具不能被自定义工具覆盖"));
    }
    Ok(())
}

/// Whether a tool may be deleted: built-in tools may not.
pub fn check_tool_deletion(existing_built_in: bool) -> (r: Result<(), AppError>)
    ensures
        existing_built_in ==> (r matches Err(AppError::InvalidInput(e)) && e@ == "内置工具不能删除"@),
        !existing_built_in ==> r is Ok,
{
    if existing_built_in {
        Err(invalid("内置工具不能删除"))
    } else {
        Ok(())
    }
}

/// The error for a tool name that is not in the registry.
pub fn tool_not_found(name: &str) -> (e: AppError)
    ensures
        e matches AppError::InvalidInput(m) && m@ == "工具不存在: "@ + name@,
{
    invalid_about("工具不存在: ", name)
}

/// The enabled entries of `s`, in order.
pub open spec fn enabled_only(s: Seq<ToolConfig>) -> Seq<ToolConfig>
    decreases s.len(),
{
    if s.len() == 0 {
        Seq::empty()
    } else {
        enabled_only(s.drop_last()) + if s.last().enabled {
            seq![s.last()]
        } else {
            Seq::empty()
        }
    }
}

/// The registered tools that are enabled, in registry order.
pub fn enabled_tools(tools: Vec<ToolConfig>) -> (r: Vec<ToolConfig>)
    ensures
        r@ == enabled_only(tools@),
{
    let mut r: Vec<ToolConfig> = Vec::new();
    let mut rest = tools;
    let ghost all = rest@;
    let ghost mut i: int = 0;
    while rest.len() > 0
        invariant
            0 <= i <= all.len(),
            rest@ == all.subrange(i, all.len() as int),
            r@ == enabled_only(all.subrange(0, i)),
        decreases rest.len(),
    {
        let t = rest.remove(0);
        proof {
            assert(t == all[i]);
            let s = all.subrange(0, i + 1);
            assert(s.drop_last() =~= all.subrange(0, i));
            assert(s.last() == t);
        }
        if t.enabled {
            r.push(t);
        }
        proof {
            i = i + 1;
            assert(rest@ =~= all.subrange(i, all.len() as int));
            assert(r@ =~= enabled_only(all.subrange(0, i)));
        }
    }
    assert(all.subrange(0, all.len() as int) =~= all);
    r
}

/// How a registered tool is executed.
#[derive(PartialEq, Eq, Structural, Clone, Copy, Debug)]
pub enum DispatchKind {
    Builtin,
    Http,
}

/// How to run the tool `name` given its registry entry, or why it cannot run.
pub fn dispatch_route(name: &str, tool: Option<&ToolConfig>) -> (r: Result<DispatchKind, AppError>)
    ensures
        match tool {
            None => (r matches Err(AppError::InvalidInput(m)) && m@ == "工具不存在: "@ + name@),
            Some(t) => if !t.enabled {
                (r matches Err(AppError::InvalidInput(m)) && m@ == "工具未启用: "@ + name@)
            } else if t.kind@ == "builtin"@ {
                r == Ok::<DispatchKind, AppError>(DispatchKind::Builtin)
            } else if t.kind@ == "http"@ {
                r == Ok::<DispatchKind, AppError>(DispatchKind::Http)
            } else {
                (r matches Err(AppError::InvalidInput(m)) && m@ == "不支持的工具类型: "@ + t.kind@)
            },
        },
{
    let t = match tool {
        None => {
            return Err(tool_not_found(name));
        },
        Some(t) => t,
    };
    if !t.enabled {
        return Err(invalid_about("工具未启用: ", name));
    }
    if crate::text::str_eq(t.kind.as_str(), "builtin") {
        Ok(DispatchKind::Builtin)
    } else if crate::text::str_eq(t.kind.as_str(), "http") {
        Ok(DispatchKind::Http)
    } else {
        Err(invalid_about("不支持的工具类型: ", t.kind.as_str()))
    }
}

/// The built-in tools the host implements.
#[derive(PartialEq, Eq, Structural, Clone, Copy, Debug)]
pub enum BuiltinTool {
    SystemStatus,
    ScanDisk,
}

/// The built-in tool called `name`.
pub fn builtin_tool(name: &str) -> (r: Result<BuiltinTool, AppError>)
    ensures
        name@ == "get_system_status"@ ==> r == Ok::<BuiltinTool, AppError>(
            BuiltinTool::SystemStatus,
        ),
        name@ == "scan_disk"@ ==> r == Ok::<BuiltinTool, AppError>(BuiltinTool::ScanDisk),
        name@ != "get_system_status"@ && name@ != "scan_disk"@ ==> (r matches Err(
            AppError::InvalidInput(m),
        ) && m@ == "未知内置工具: "@ + name@),
{
    proof {
        reveal_strlit("get_system_status");
        reveal_strlit("scan_disk");
        assert("get_system_status"@[0] != "scan_disk"@[0]);
    }
    if crate::text::str_eq(name, "get_system_status") {
        Ok(BuiltinTool::SystemStatus)
    } else if crate::text::str_eq(name, "scan_disk") {
        Ok(BuiltinTool::ScanDisk)
    } else {
        Err(invalid_about("未知内置工具: ", name))
    }
}

/// The number of processes a system snapshot lists: 10 unless requested,
/// kept within 3..=30.
pub fn process_limit(requested: Option<usize>) -> (n: usize)
    ensures
        n == clamp(match requested {
            Some(v) => v as int,
            None => 10,
        }, 3, 30),
{
    let v = match requested {
        Some(v) => v,
        None => 10,
    };
    if v < 3 {
        3
    } else if v > 30 {
        30
    } else {
        v
    }
}

/// `v` limited to `lo..=hi` (`Ord::clamp`).
pub open spec fn clamp(v: int, lo: int, hi: int) -> int {
    if v < lo {
        lo
    } else if v > hi {
        hi
    } else {
        v
    }
}

/// Clamping keeps a value inside its bounds and leaves a value already
/// inside them unchanged; a value below (above) the range becomes the lower
/// (upper) bound.
pub proof fn lemma_clamp_bounds(v: int, lo: int, hi: int)
    requires
        lo <= hi,
    ensures
        lo <= clamp(v, lo, hi) <= hi,
        lo <= v <= hi ==> clamp(v, lo, hi) == v,
        v < lo ==> clamp(v, lo, hi) == lo,
        v > hi ==> clamp(v, lo, hi) == hi,
{
}

/// The headers an HTTP tool sends: those with a non-blank key, key and value
/// trimmed.
pub open spec fn sent_headers(hs: Seq<ToolHeader>) -> Seq<(Seq<char>, Seq<char>)>
    decreases hs.len(),
{
    if hs.len() == 0 {
        Seq::empty()
    } else {
        let h = hs.last();
        sent_headers(hs.drop_last()) + if is_blank(h.key@) {
            Seq::empty()
        } else {
            seq![(trim(h.key@), trim(h.value@))]
        }
    }
}

/// The header pairs to send for an HTTP tool.
pub fn request_headers(headers: &Vec<ToolHeader>) -> (r: Vec<(String, String)>)
    ensures
        r@.map_values(|p: (String, String)| (p.0@, p.1@)) == sent_headers(headers@),
{
    let mut r: Vec<(String, String)> = Vec::new();
    let mut i: usize = 0;
    while i < headers.len()
        invariant
            i <= headers.len(),
            r@.map_values(|p: (String, String)| (p.0@, p.1@)) == sent_headers(
                headers@.subrange(0, i as int),
            ),
        decreases headers.len() - i,
    {
        let h = &headers[i];
        let ghost before = r@.map_values(|p: (String, String)| (p.0@, p.1@));
        let key = trim_chars(&chars_of(h.key.as_str()));
        if key.len() != 0 {
            let value = crate::text::trimmed(h.value.as_str());
            r.push((string_from(key.as_slice()), value));
        }
        proof {
            let s = headers@.subrange(0, i + 1);
            assert(s.drop_last() =~= headers@.subrange(0, i as int));
            assert(s.last() == *h);
            if key.len() != 0 {
                assert(r@.map_values(|p: (String, String)| (p.0@, p.1@)) =~= before + seq![
                    (trim(h.key@), trim(h.value@)),
                ]);
            } else {
                assert(r@.map_values(|p: (String, String)| (p.0@, p.1@)) =~= before + Seq::<
                    (Seq<char>, Seq<char>),
                >::empty());
            }
        }
        i = i + 1;
    }
    assert(headers@.subrange(0, headers.len() as int) =~= headers@);
    r
}

/// A member of a GET tool's JSON arguments, as the query string needs it:
/// null, a boolean, a string, or any other value by its JSON text.
#[derive(Debug)]
pub enum QueryValue {
    Null,
    Bool(bool),
    Text(String),
    Json(String),
}

/// How a member is written into the query: null as nothing, a boolean as
/// `true`/`false`, a string as itself, anything else as its JSON text.
pub open spec fn query_text(v: QueryValue) -> Seq<char> {
    match v {
        QueryValue::Null => Seq::empty(),
        QueryValue::Bool(b) => if b {
            "true"@
        } else {
            "false"@
        },
        QueryValue::Text(t) => t@,
        QueryValue::Json(j) => j@,
    }
}

/// The query pairs a GET tool sends for its arguments' members, in order.
pub fn query_pairs(members: Vec<(String, QueryValue)>) -> (r: Vec<(String, String)>)
    ensures
        r@.len() == members@.len(),
        forall|i: int|
            #![trigger r@[i]]
            0 <= i < r@.len() ==> r@[i].0@ == members@[i].0@ && r@[i].1@ == query_text(
                members@[i].1,
            ),
{
    let ghost all = members@;
    let n = members.len();
    let mut rest = members;
    let mut r: Vec<(String, String)> = Vec::new();
    let mut i: usize = 0;
    while i < n
        invariant
            i <= n,
            n == all.len(),
            rest@ == all.subrange(i as int, n as int),
            r@.len() == i,
            forall|k: int|
                #![trigger r@[k]]
                0 <= k < i ==> r@[k].0@ == all[k].0@ && r@[k].1@ == query_text(all[k].1),
        decreases n - i,
    {
        let (key, value) = rest.remove(0);
        assert(all[i as int] == (key, value));
        let text = match value {
            QueryValue::Null => String::new(),
            QueryValue::Bool(b) => if b {
                String::from_str("true")
            } else {
                String::from_str("false")
            },
            QueryValue::Text(t) => t,
            QueryValue::Json(j) => j,
        };
        let ghost before = r@;
        r.push((key, text));
        proof {
            assert forall|k: int| #![trigger r@[k]] 0 <= k < i + 1 implies r@[k].0@ == all[k].0@
                && r@[k].1@ == query_text(all[k].1) by {
                if k < i {
                    assert(r@[k] == before[k]);
                }
            }
        }
        i = i + 1;
        assert(rest@ =~= all.subrange(i as int, n as int));
    }
    r
}

// ---------------------------------------------------------------------------
// Request-time checks for HTTP tools
// ---------------------------------------------------------------------------

/// An address the tool's host name resolved to.
#[derive(Clone, Copy, Debug)]
pub enum ResolvedAddress {
    V4(u8, u8, u8, u8),
    V6(u16, u16, u16, u16, u16, u16, u16, u16),
}

/// The IPv4 address an IPv4-mapped IPv6 address (`::ffff:a.b.c.d`) carries,
/// as octets.
pub open spec fn mapped_octets(hi: u16, lo: u16) -> Seq<int> {
    seq![(hi / 256) as int, (hi % 256) as int, (lo / 256) as int, (lo % 256) as int]
}

/// Addresses an HTTP tool must not reach: the IPv4 ranges of
/// [`restricted_ipv4`]; among IPv6 addresses the unspecified `::`, loopback
/// `::1`, unique-local `fc00::/7`, link-local `fe80::/10`, and an
/// IPv4-mapped address whose IPv4 part is restricted.
pub open spec fn restricted_address(a: ResolvedAddress) -> bool {
    match a {
        ResolvedAddress::V4(a, b, c, d) => restricted_ipv4(seq![a as int, b as int, c as int, d as int]),
        ResolvedAddress::V6(s0, s1, s2, s3, s4, s5, s6, s7) => {
            ||| (s0 == 0 && s1 == 0 && s2 == 0 && s3 == 0 && s4 == 0 && s5 == 0 && s6 == 0 && s7 <= 1)
            ||| (0xfc00 <= s0 && s0 <= 0xfdff)
            ||| (0xfe80 <= s0 && s0 <= 0xfebf)
            ||| (s0 == 0 && s1 == 0 && s2 == 0 && s3 == 0 && s4 == 0 && s5 == 0xffff
                && restricted_ipv4(mapped_octets(s6, s7)))
        },
    }
}

fn address_restricted(a: &ResolvedAddress) -> (r: bool)
    ensures
        r == restricted_address(*a),
{
    match *a {
        ResolvedAddress::V4(a, b, c, d) => {
            proof {
                let o = seq![a as int, b as int, c as int, d as int];
                assert(o[0] == a && o[1] == b);
            }
            a == 0 || a == 127 || a == 10 || (a == 172 && 16 <= b && b <= 31) || (a == 192 && b
                == 168) || (a == 169 && b == 254) || (a == 100 && 64 <= b && b <= 127)
        },
        ResolvedAddress::V6(s0, s1, s2, s3, s4, s5, s6, s7) => {
            let zero_prefix = s0 == 0 && s1 == 0 && s2 == 0 && s3 == 0 && s4 == 0;
            let a = s6 / 256;
            let b = s6 % 256;
            proof {
                let o = mapped_octets(s6, s7);
                assert(o[0] == a && o[1] == b);
            }
            let mapped_restricted = a == 0 || a == 127 || a == 10 || (a == 172 && 16 <= b && b
                <= 31) || (a == 192 && b == 168) || (a == 169 && b == 254) || (a == 100 && 64 <= b
                && b <= 127);
            (zero_prefix && s5 == 0 && s6 == 0 && s7 <= 1) || (0xfc00 <= s0 && s0 <= 0xfdff) || (
            0xfe80 <= s0 && s0 <= 0xfebf) || (zero_prefix && s5 == 0xffff && mapped_restricted)
        },
    }
}

/// Check, just before an HTTP tool is called, the addresses its host name
/// resolved to: the call is refused when any of them is restricted (DNS may
/// point a public name at an internal address).
pub fn check_resolved_addresses(addrs: &Vec<ResolvedAddress>) -> (r: Result<(), AppError>)
    ensures
        (exists|i: int| 0 <= i < addrs@.len() && restricted_address(#[trigger] addrs@[i]))
            ==> (r matches Err(AppError::InvalidInput(m)) && m@ == restricted_host_message()),
        (forall|i: int| 0 <= i < addrs@.len() ==> !restricted_address(#[trigger] addrs@[i]))
            ==> r is Ok,
{
    let mut i: usize = 0;
    while i < addrs.len()
        invariant
            i <= addrs.len(),
            forall|k: int| 0 <= k < i ==> !restricted_address(#[trigger] addrs@[k]),
        decreases addrs.len() - i,
    {
        if address_restricted(&addrs[i]) {
            return Err(
                AppError::InvalidInput(String::from_str("HTTP 工具 URL 不能指向本机、内网或链路本地地址")),
            );
        }
        i = i + 1;
    }
    Ok(())
}

/// The largest response body an HTTP tool may return: 2 MiB.
pub const HTTP_TOOL_MAX_BODY_BYTES: usize = 2097152;

/// Seconds an HTTP tool call may take.
pub const HTTP_TOOL_TIMEOUT_SECS: u64 = 30;

/// Redirects an HTTP tool call may follow.
pub const HTTP_TOOL_MAX_REDIRECTS: usize = 5;

pub open spec fn body_too_large_message() -> Seq<char> {
    "HTTP 工具响应体超过 2 MiB 上限"@
}

/// Check the size of an HTTP tool's response body against the cap.
pub fn check_body_size(len: usize) -> (r: Result<(), AppError>)
    ensures
        len <= HTTP_TOOL_MAX_BODY_BYTES ==> r is Ok,
        len > HTTP_TOOL_MAX_BODY_BYTES ==> (r matches Err(AppError::InvalidInput(m)) && m@
            == body_too_large_message()),
{
    if len > HTTP_TOOL_MAX_BODY_BYTES {
        Err(AppError::InvalidInput(String::from_str("HTTP 工具响应体超过 2 MiB 上限")))
    } else {
        Ok(())
    }
}

} // verus!
