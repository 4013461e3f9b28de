//! What three desktop tools report from the data they fetch: the weather
//! service's current conditions, a DuckDuckGo Instant Answer, and a
//! project's `package.json`. The host fetches and decodes the data into the
//! plain records below; the fallbacks, formatting and selection are here.

use crate::desktop_tools::{truncate_chars, truncated, WeatherRequest};
use vstd::multiset::Multiset;
use vstd::prelude::*;
use vstd::seq_lib::*;
use vstd::string::*;

verus! {

/// The text of an optional string, or `dflt` when it is absent.
pub open spec fn text_or(o: Option<String>, dflt: Seq<char>) -> Seq<char> {
    match o {
        Some(s) => s@,
        None => dflt,
    }
}

fn text_or_default(o: Option<String>, dflt: &str) -> (r: String)
    ensures
        r@ == text_or(o, dflt@),
{
    match o {
        Some(s) => s,
        None => String::from_str(dflt),
    }
}

// ---------------------------------------------------------------------------
// weather_lookup
// ---------------------------------------------------------------------------

/// The first `current_condition` entry of a wttr.in answer: each field is
/// present when the entry holds it as a string.
#[derive(Debug)]
pub struct WeatherCurrent {
    pub temp_c: Option<String>,
    pub temp_f: Option<String>,
    pub feels_like_c: Option<String>,
    pub feels_like_f: Option<String>,
    pub humidity: Option<String>,
    pub wind_kmph: Option<String>,
    /// `weatherDesc[0].value`.
    pub description: Option<String>,
}

/// A wttr.in answer: the name of the nearest area (`nearest_area[0].areaName[0]`
/// when that is a string) and the current conditions, if any.
#[derive(Debug)]
pub struct WeatherReading {
    pub area_name: Option<String>,
    pub current: Option<WeatherCurrent>,
}

/// What `weather_lookup` reports.
#[derive(Debug)]
pub struct WeatherReport {
    pub city: String,
    pub description: String,
    pub temperature: String,
    pub feels_like: String,
    pub humidity: String,
    pub wind_kmph: String,
    /// `f` or `c`.
    pub units: String,
}

pub open spec fn unit_letter(fahrenheit: bool) -> Seq<char> {
    if fahrenheit {
        "F"@
    } else {
        "C"@
    }
}

/// A temperature as shown: the value (`?` when missing), a degree sign and
/// the unit letter.
pub open spec fn degrees(value: Option<String>, fahrenheit: bool) -> Seq<char> {
    text_or(value, "?"@) + "°"@ + unit_letter(fahrenheit)
}

pub open spec fn no_current_message() -> Seq<char> {
    "wttr.in: no current_condition"@
}

/// The report for a reading: the area's name (the requested city when the
/// service names none), the description (empty when missing), temperatures in
/// the requested unit, humidity with a `%`, and missing values shown as `?`.
pub open spec fn weather_report_of(
    reading: WeatherReading,
    request: WeatherRequest,
    r: WeatherReport,
) -> bool {
    let f = request.fahrenheit;
    let c = reading.current->0;
    &&& r.city@ == text_or(reading.area_name, request.city@)
    &&& r.description@ == text_or(c.description, Seq::empty())
    &&& r.temperature@ == degrees(if f { c.temp_f } else { c.temp_c }, f)
    &&& r.feels_like@ == degrees(if f { c.feels_like_f } else { c.feels_like_c }, f)
    &&& r.humidity@ == text_or(c.humidity, "?"@) + "%"@
    &&& r.wind_kmph@ == text_or(c.wind_kmph, "?"@)
    &&& r.units@ == (if f { "f"@ } else { "c"@ })
}

fn degrees_text(value: Option<String>, fahrenheit: bool) -> (r: String)
    ensures
        r@ == degrees(value, fahrenheit),
{
    let mut r = text_or_default(value, "?");
    r.append("°");
    if fahrenheit {
        r.append("F");
    } else {
        r.append("C");
    }
    r
}

/// The weather report for what wttr.in answered to `request`; an answer
/// without current conditions is an error.
pub fn weather_report(reading: WeatherReading, request: &WeatherRequest) -> (r: Result<
    WeatherReport,
    String,
>)
    ensures
        reading.current is None ==> (r matches Err(m) && m@ == no_current_message()),
        reading.current is Some ==> (r matches Ok(w) && weather_report_of(reading, *request, w)),
{
    let ghost orig = reading;
    let c = match reading.current {
        None => {
            return Err(String::from_str("wttr.in: no current_condition"));
        },
        Some(c) => c,
    };
    let f = request.fahrenheit;
    let city = match reading.area_name {
        Some(a) => a,
        None => request.city.clone(),
    };
    let description = match c.description {
        Some(d) => d,
        None => String::new(),
    };
    let temperature = degrees_text(if f { c.temp_f } else { c.temp_c }, f);
    let feels_like = degrees_text(if f { c.feels_like_f } else { c.feels_like_c }, f);
    let mut humidity = text_or_default(c.humidity, "?");
    humidity.append("%");
    let wind_kmph = text_or_default(c.wind_kmph, "?");
    let units = if f { String::from_str("f") } else { String::from_str("c") };
    Ok(WeatherReport { city, description, temperature, feels_like, humidity, wind_kmph, units })
}

// ---------------------------------------------------------------------------
// web_search
// ---------------------------------------------------------------------------

/// An entry of a topic group: its `Text` and `FirstURL` when they are strings.
#[derive(Debug)]
pub struct DdgLink {
    pub text: Option<String>,
    pub first_url: Option<String>,
}

/// An entry of `RelatedTopics`: a result of its own when it has `Text`,
/// otherwise a group whose entries are listed under `Topics` (empty when
/// there is no such list).
#[derive(Debug)]
pub struct DdgTopic {
    pub text: Option<String>,
    pub first_url: Option<String>,
    pub topics: Vec<DdgLink>,
}

/// A DuckDuckGo Instant Answer: its related topics (empty when missing) and
/// its abstract text when that is a string.
#[derive(Debug)]
pub struct DdgAnswer {
    pub related_topics: Vec<DdgTopic>,
    pub abstract_text: Option<String>,
}

/// One reported search result.
#[derive(Debug)]
pub struct SearchResult {
    pub title: String,
    pub url: String,
    pub snippet: String,
}

/// The (text, url) candidates of group entries that have a text, in order;
/// a missing url is empty.
pub open spec fn link_candidates(ls: Seq<DdgLink>) -> Seq<(Seq<char>, Seq<char>)>
    decreases ls.len(),
{
    if ls.len() == 0 {
        Seq::empty()
    } else {
        let l = ls.last();
        link_candidates(ls.drop_last()) + match l.text {
            Some(t) => seq![(t@, text_or(l.first_url, Seq::empty()))],
            None => Seq::empty(),
        }
    }
}

/// The candidates one related topic contributes: itself when it has a text,
/// otherwise those of its group entries.
pub open spec fn topic_candidates(t: DdgTopic) -> Seq<(Seq<char>, Seq<char>)> {
    match t.text {
        Some(x) => seq![(x@, text_or(t.first_url, Seq::empty()))],
        None => link_candidates(t.topics@),
    }
}

/// All candidates of the related topics, nested groups flattened, in order.
pub open spec fn answer_candidates(ts: Seq<DdgTopic>) -> Seq<(Seq<char>, Seq<char>)>
    decreases ts.len(),
{
    if ts.len() == 0 {
        Seq::empty()
    } else {
        answer_candidates(ts.drop_last()) + topic_candidates(ts.last())
    }
}

/// The results reported for an answer: the first `max` candidates, each with
/// its text cut to 120 characters as the title and to 300 as the snippet.
pub open spec fn search_results_of(answer: DdgAnswer, max: int) -> Seq<(Seq<char>, Seq<char>, Seq<char>)> {
    let cs = answer_candidates(answer.related_topics@);
    let n = if max < cs.len() { max } else { cs.len() as int };
    Seq::new(
        n as nat,
        |i: int| (truncated(cs[i].0, 120), cs[i].1, truncated(cs[i].0, 300)),
    )
}

/// A result viewed as (title, url, snippet).
pub open spec fn result_view(r: SearchResult) -> (Seq<char>, Seq<char>, Seq<char>) {
    (r.title@, r.url@, r.snippet@)
}

fn link_candidate_list(ls: &Vec<DdgLink>, out: &mut Vec<(String, String)>)
    ensures
        final(out)@.map_values(|p: (String, String)| (p.0@, p.1@)) == old(out)@.map_values(
            |p: (String, String)| (p.0@, p.1@),
        ) + link_candidates(ls@),
{
    let ghost start = old(out)@.map_values(|p: (String, String)| (p.0@, p.1@));
    let mut i: usize = 0;
    while i < ls.len()
        invariant
            i <= ls.len(),
            out@.map_values(|p: (String, String)| (p.0@, p.1@)) == start + link_candidates(
                ls@.take(i as int),
            ),
        decreases ls.len() - i,
    {
        let l = &ls[i];
        let ghost before = out@.map_values(|p: (String, String)| (p.0@, p.1@));
        let ghost pre = ls@.take(i as int);
        let ghost next = ls@.take(i + 1);
        assert(next.drop_last() =~= pre);
        assert(next.last() == ls@[i as int]);
        assert(link_candidates(next) == link_candidates(pre) + match l.text {
            Some(t) => seq![(t@, text_or(l.first_url, Seq::empty()))],
            None => Seq::<(Seq<char>, Seq<char>)>::empty(),
        });
        if let Some(t) = &l.text {
            let url = match &l.first_url {
                Some(u) => u.clone(),
                None => String::new(),
            };
            out.push((t.clone(), url));
            proof {
                assert(out@.map_values(|p: (String, String)| (p.0@, p.1@)) =~= before.push(
                    (t@, text_or(l.first_url, Seq::empty())),
                ));
            }
        }
        proof {
            assert(out@.map_values(|p: (String, String)| (p.0@, p.1@)) =~= start + link_candidates(
                next,
            ));
        }
        i = i + 1;
    }
    assert(ls@.take(ls.len() as int) =~= ls@);
}

fn answer_candidate_list(ts: &Vec<DdgTopic>) -> (r: Vec<(String, String)>)
    ensures
        r@.map_values(|p: (String, String)| (p.0@, p.1@)) == answer_candidates(ts@),
{
    let mut out: Vec<(String, String)> = Vec::new();
    let mut i: usize = 0;
    assert(out@.map_values(|p: (String, String)| (p.0@, p.1@)) =~= answer_candidates(
        ts@.take(0),
    ));
    while i < ts.len()
        invariant
            i <= ts.len(),
            out@.map_values(|p: (String, String)| (p.0@, p.1@)) == answer_candidates(
                ts@.take(i as int),
            ),
        decreases ts.len() - i,
    {
        let t = &ts[i];
        assert(ts@.take(i + 1).drop_last() =~= ts@.take(i as int));
        assert(ts@.take(i + 1).last() == ts@[i as int]);
        let ghost before = out@.map_values(|p: (String, String)| (p.0@, p.1@));
        match &t.text {
            Some(x) => {
                let url = match &t.first_url {
                    Some(u) => u.clone(),
                    None => String::new(),
                };
                out.push((x.clone(), url));
                proof {
                    assert(out@.map_values(|p: (String, String)| (p.0@, p.1@)) =~= before
                        + topic_candidates(*t));
                }
            },
            None => {
                link_candidate_list(&t.topics, &mut out);
            },
        }
        i = i + 1;
    }
    assert(ts@.take(ts.len() as int) =~= ts@);
    out
}

/// The results `web_search` reports for an answer, at most `max` of them
/// (see [`search_results_of`]).
pub fn search_results(answer: &DdgAnswer, max: usize) -> (r: Vec<SearchResult>)
    ensures
        r@.map_values(|x: SearchResult| result_view(x)) == search_results_of(*answer, max as int),
{
    let cs = answer_candidate_list(&answer.related_topics);
    let ghost csv = cs@.map_values(|p: (String, String)| (p.0@, p.1@));
    let n = if max < cs.len() {
        max
    } else {
        cs.len()
    };
    let mut out: Vec<SearchResult> = Vec::new();
    let mut i: usize = 0;
    while i < n
        invariant
            i <= n,
            n <= cs.len(),
            n == (if max < csv.len() { max as int } else { csv.len() as int }),
            csv == cs@.map_values(|p: (String, String)| (p.0@, p.1@)),
            csv == answer_candidates(answer.related_topics@),
            out@.len() == i,
            forall|k: int|
                0 <= k < i ==> result_view(#[trigger] out@[k]) == (
                    truncated(csv[k].0, 120),
                    csv[k].1,
                    truncated(csv[k].0, 300),
                ),
        decreases n - i,
    {
        let c = &cs[i];
        assert(csv[i as int] == (c.0@, c.1@));
        let r = SearchResult {
            title: truncate_chars(c.0.as_str(), 120),
            url: c.1.clone(),
            snippet: truncate_chars(c.0.as_str(), 300),
        };
        out.push(r);
        i = i + 1;
    }
    assert(out@.map_values(|x: SearchResult| result_view(x)) =~= search_results_of(
        *answer,
        max as int,
    ));
    out
}

/// The abstract `web_search` reports: the answer's abstract text unless it
/// is missing or empty.
pub fn search_abstract(answer: &DdgAnswer) -> (r: Option<String>)
    ensures
        match answer.abstract_text {
            Some(a) => if a@.len() > 0 {
                r matches Some(s) && s@ == a@
            } else {
                r is None
            },
            None => r is None,
        },
{
    match &answer.abstract_text {
        Some(a) => if !a.as_str().is_empty() {
            Some(a.clone())
        } else {
            None
        },
        None => None,
    }
}

// ---------------------------------------------------------------------------
// package_scripts
// ---------------------------------------------------------------------------

/// What `package_scripts` reads from a `package.json`: `name` and `version`
/// when they are strings, and the `scripts` member as JSON text when present.
#[derive(Debug)]
pub struct PackageManifest {
    pub name: Option<String>,
    pub version: Option<String>,
    pub scripts: Option<String>,
}

/// What `package_scripts` reports; `scripts` is JSON text.
#[derive(Debug)]
pub struct PackageSummary {
    pub path: String,
    pub name: String,
    pub version: String,
    pub scripts: String,
}

/// The summary of the project in `dir`: name and version empty when missing,
/// scripts an empty object when missing.
pub fn package_summary(dir: String, manifest: PackageManifest) -> (r: PackageSummary)
    ensures
        r.path@ == dir@,
        r.name@ == text_or(manifest.name, Seq::empty()),
        r.version@ == text_or(manifest.version, Seq::empty()),
        r.scripts@ == text_or(manifest.scripts, "{}"@),
{
    PackageSummary {
        path: dir,
        name: match manifest.name {
            Some(n) => n,
            None => String::new(),
        },
        version: match manifest.version {
            Some(v) => v,
            None => String::new(),
        },
        scripts: text_or_default(manifest.scripts, "{}"),
    }
}

// ---------------------------------------------------------------------------
// disk_cleanup_candidates
// ---------------------------------------------------------------------------

/// Files smaller than this are not worth listing.
pub const CLEANUP_MIN_BYTES: u64 = 65536;

/// At most this many entries are looked at over all cache directories.
pub const CLEANUP_MAX_VISIT: usize = 50000;

/// A large file found in a temporary or cache directory.
#[derive(Debug)]
pub struct CleanupCandidate {
    pub path: String,
    pub size_bytes: u64,
    pub modified_at: Option<String>,
}

/// Whether an entry is listed: a regular file of at least 64 KiB.
pub fn cleanup_worthy(is_file: bool, size: u64) -> (r: bool)
    ensures
        r == (is_file && size >= CLEANUP_MIN_BYTES),
{
    is_file && size >= CLEANUP_MIN_BYTES
}

/// Whether the walk goes on after its `visited`-th entry with `found`
/// candidates so far: it stops past the visit limit or once it holds four
/// times the number of results asked for.
pub fn cleanup_scan_continues(visited: usize, found: usize, max_results: usize) -> (r: bool)
    ensures
        r == (visited <= CLEANUP_MAX_VISIT && found < 4 * max_results),
{
    visited <= CLEANUP_MAX_VISIT && (found as u128) < 4 * (max_results as u128)
}

/// The first position in `s` at or after `i` whose size is below `v` (the
/// length when there is none).
pub open spec fn first_below(s: Seq<CleanupCandidate>, v: u64, i: int) -> int
    decreases s.len() - i,
{
    if i >= s.len() {
        s.len() as int
    } else if s[i].size_bytes < v {
        i
    } else {
        first_below(s, v, i + 1)
    }
}

/// `s` ordered by size, largest first, equal sizes in their original order
/// (what a stable sort on descending size gives).
pub open spec fn largest_first(s: Seq<CleanupCandidate>) -> Seq<CleanupCandidate>
    decreases s.len(),
{
    if s.len() == 0 {
        Seq::empty()
    } else {
        let t = largest_first(s.drop_last());
        let x = s.last();
        let p = first_below(t, x.size_bytes, 0);
        t.subrange(0, p) + seq![x] + t.subrange(p, t.len() as int)
    }
}

/// The sizes of `s` added up.
pub open spec fn size_sum(s: Seq<CleanupCandidate>) -> int
    decreases s.len(),
{
    if s.len() == 0 {
        0
    } else {
        size_sum(s.drop_last()) + s.last().size_bytes
    }
}

/// The candidates listed: the `max` largest (all when fewer), largest first.
pub open spec fn cleanup_listed(s: Seq<CleanupCandidate>, max: int) -> Seq<CleanupCandidate> {
    let t = largest_first(s);
    if t.len() > max {
        t.subrange(0, max)
    } else {
        t
    }
}

/// Whether sizes never grow along `s`.
pub open spec fn sizes_descending(s: Seq<CleanupCandidate>) -> bool {
    forall|i: int, j: int| 0 <= i < j < s.len() ==> s[i].size_bytes >= s[j].size_bytes
}

proof fn lemma_first_below(s: Seq<CleanupCandidate>, v: u64, i: int)
    requires
        0 <= i <= s.len(),
    ensures
        i <= first_below(s, v, i) <= s.len(),
        forall|k: int| i <= k < first_below(s, v, i) ==> s[k].size_bytes >= v,
        first_below(s, v, i) < s.len() ==> s[first_below(s, v, i)].size_bytes < v,
    decreases s.len() - i,
{
    if i < s.len() && s[i].size_bytes >= v {
        lemma_first_below(s, v, i + 1);
    }
}

proof fn lemma_place(t: Seq<CleanupCandidate>, x: CleanupCandidate)
    requires
        sizes_descending(t),
    ensures
        ({
            let p = first_below(t, x.size_bytes, 0);
            let r = t.subrange(0, p) + seq![x] + t.subrange(p, t.len() as int);
            &&& sizes_descending(r)
            &&& r.to_multiset() == t.to_multiset().insert(x)
            &&& r.len() == t.len() + 1
        }),
{
    broadcast use group_to_multiset_ensures;
    broadcast use vstd::multiset::group_multiset_axioms;

    let p = first_below(t, x.size_bytes, 0);
    lemma_first_below(t, x.size_bytes, 0);
    let pre = t.subrange(0, p);
    let post = t.subrange(p, t.len() as int);
    let r = pre + seq![x] + post;
    assert forall|i: int, j: int| 0 <= i < j < r.len() implies r[i].size_bytes >= r[j].size_bytes by {
        if j < p {
            assert(r[i] == t[i] && r[j] == t[j]);
        } else if j == p {
            assert(r[j] == x);
            assert(r[i] == t[i]);
        } else if i < p {
            assert(r[i] == t[i]);
            assert(r[j] == t[j - 1]);
            assert(t[i].size_bytes >= t[j - 1].size_bytes);
        } else if i == p {
            assert(r[i] == x);
            assert(r[j] == t[j - 1]);
            assert(t[p].size_bytes >= t[j - 1].size_bytes);
        } else {
            assert(r[i] == t[i - 1] && r[j] == t[j - 1]);
        }
    }
    lemma_multiset_commutative(pre + seq![x], post);
    lemma_multiset_commutative(pre, seq![x]);
    lemma_multiset_commutative(pre, post);
    assert(pre + post =~= t);
    assert(seq![x].to_multiset() =~= Multiset::empty().insert(x)) by {
        assert(Seq::<CleanupCandidate>::empty().push(x) =~= seq![x]);
    }
}

/// Ordering candidates largest first keeps exactly the same candidates, in
/// non-increasing order of size.
pub proof fn lemma_largest_first(s: Seq<CleanupCandidate>)
    ensures
        sizes_descending(largest_first(s)),
        largest_first(s).to_multiset() == s.to_multiset(),
        largest_first(s).len() == s.len(),
    decreases s.len(),
{
    broadcast use group_to_multiset_ensures;

    if s.len() > 0 {
        lemma_largest_first(s.drop_last());
        lemma_place(largest_first(s.drop_last()), s.last());
        assert(s.drop_last().push(s.last()) =~= s);
    }
}

/// The listed candidates are the `max` largest of the input (all of them
/// when there are no more than `max`), largest first: a prefix of a
/// size-ordered rearrangement of the input.
pub proof fn lemma_cleanup_listed(s: Seq<CleanupCandidate>, max: int)
    requires
        0 <= max,
    ensures
        cleanup_listed(s, max).len() == (if s.len() <= max { s.len() as int } else { max }),
        sizes_descending(cleanup_listed(s, max)),
        exists|t: Seq<CleanupCandidate>|
            t.to_multiset() == s.to_multiset() && sizes_descending(t) && #[trigger] t.len()
                == s.len() && cleanup_listed(s, max) == t.subrange(
                0,
                cleanup_listed(s, max).len() as int,
            ),
        s.len() <= max ==> cleanup_listed(s, max).to_multiset() == s.to_multiset(),
{
    lemma_largest_first(s);
    let t = largest_first(s);
    let l = cleanup_listed(s, max);
    if t.len() > max {
        assert(l == t.subrange(0, max));
    } else {
        assert(l =~= t.subrange(0, l.len() as int));
    }
}

/// Sizes add up: the total of two runs of candidates together is the sum of
/// their totals, and one candidate adds exactly its size.
pub proof fn lemma_size_sum_adds_up(a: Seq<CleanupCandidate>, b: Seq<CleanupCandidate>, x: CleanupCandidate)
    ensures
        size_sum(a + b) == size_sum(a) + size_sum(b),
        size_sum(seq![x]) == x.size_bytes,
        size_sum(Seq::<CleanupCandidate>::empty()) == 0,
    decreases b.len(),
{
    let one = seq![x];
    assert(one.drop_last() =~= Seq::<CleanupCandidate>::empty());
    assert(one.last() == x);
    assert(size_sum(one.drop_last()) == 0);
    if b.len() == 0 {
        assert(a + b =~= a);
    } else {
        lemma_size_sum_adds_up(a, b.drop_last(), x);
        assert((a + b).drop_last() =~= a + b.drop_last());
        assert((a + b).last() == b.last());
    }
}

/// The candidates `disk_cleanup_candidates` lists, at most `max`, largest
/// first, with their total size (held at `u64::MAX` should it go beyond).
pub fn cleanup_selection(candidates: Vec<CleanupCandidate>, max: usize) -> (r: (
    Vec<CleanupCandidate>,
    u64,
))
    ensures
        r.0@ == cleanup_listed(candidates@, max as int),
        r.1 == (if size_sum(r.0@) <= u64::MAX { size_sum(r.0@) } else { u64::MAX as int }),
{
    let ghost all = candidates@;
    let n = candidates.len();
    let mut rest = candidates;
    let mut sorted: Vec<CleanupCandidate> = Vec::new();
    let mut i: usize = 0;
    while i < n
        invariant
            i <= n,
            n == all.len(),
            rest@ == all.subrange(i as int, n as int),
            sorted@ == largest_first(all.subrange(0, i as int)),
        decreases n - i,
    {
        let c = rest.remove(0);
        proof {
            assert(all[i as int] == c);
            let pre = all.subrange(0, i + 1);
            assert(pre.drop_last() =~= all.subrange(0, i as int));
            assert(pre.last() == c);
        }
        let mut p: usize = 0;
        while p < sorted.len() && sorted[p].size_bytes >= c.size_bytes
            invariant
                p <= sorted.len(),
                first_below(sorted@, c.size_bytes, 0) == first_below(sorted@, c.size_bytes, p as int),
            decreases sorted.len() - p,
        {
            p = p + 1;
        }
        let ghost before = sorted@;
        let ghost size = c.size_bytes;
        sorted.insert(p, c);
        proof {
            assert(first_below(before, size, p as int) == p);
            assert(sorted@ =~= before.subrange(0, p as int) + seq![all[i as int]] + before.subrange(
                p as int,
                before.len() as int,
            ));
        }
        i = i + 1;
        assert(rest@ =~= all.subrange(i as int, n as int));
    }
    assert(all.subrange(0, n as int) =~= all);
    if sorted.len() > max {
        sorted.truncate(max);
    }
    let mut total: u64 = 0;
    let mut k: usize = 0;
    while k < sorted.len()
        invariant
            k <= sorted.len(),
            total == (if size_sum(sorted@.subrange(0, k as int)) <= u64::MAX {
                size_sum(sorted@.subrange(0, k as int))
            } else {
                u64::MAX as int
            }),
        decreases sorted.len() - k,
    {
        proof {
            let pre = sorted@.subrange(0, k + 1);
            assert(pre.drop_last() =~= sorted@.subrange(0, k as int));
            assert(pre.last() == sorted@[k as int]);
        }
        total = total.saturating_add(sorted[k].size_bytes);
        k = k + 1;
    }
    assert(sorted@.subrange(0, sorted.len() as int) =~= sorted@);
    (sorted, total)
}

} // verus!
