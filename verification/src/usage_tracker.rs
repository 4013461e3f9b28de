//! Foreground-app usage sampling: turning what each desktop platform reports
//! about the focused window into a stable app key, and deciding whether a
//! sampler tick credits time at all.
//!
//! The platform probes themselves (Win32 calls, AppKit messages, `xprop`
//! output, `/proc/<pid>/comm`) are read by the host; this module receives
//! what they returned.

use crate::parse::{
    fields, first_containing, first_token, first_token_of, line_containing, lines, parsed_u32,
    split_on, u32_from_radix,
};
use crate::text::{
    chars_of, slice_chars, starts_with, string_from, to_lowercase, trim, trim_chars,
    unicode_lowercase,
};
use vstd::prelude::*;

verus! {

/// Seconds credited per sampler tick to whatever app is in front.
pub const TICK_INTERVAL_SECS: u64 = 15;

/// A foreground app: a stable, lower-case grouping key and a display name.
#[derive(Debug)]
pub struct ForegroundApp {
    pub key: String,
    pub name: String,
}

/// What the platform probe found out about the focused window.
#[derive(Debug)]
pub enum ForegroundReading {
    /// No probe exists for this platform.
    Unsupported,
    /// Windows: the full image path of the focused window's process, `None`
    /// when any of the Win32 calls failed.
    Windows { exe_path: Option<String> },
    /// macOS: the frontmost application's localized name and bundle
    /// identifier, each `None` when AppKit returned none.
    Mac { name: Option<String>, bundle_id: Option<String> },
    /// X11: the `_NET_WM_PID`/`WM_CLASS` properties `xprop` printed for the
    /// active window (`None` when `xprop` failed or no window is active), and
    /// the text of `/proc/<pid>/comm` when it was read.
    X11 { window_props: Option<String>, comm: Option<String> },
}

/// What the platform reported about the time since the last user input.
#[derive(Debug)]
pub enum IdleReading {
    /// No idle probe on this platform, or the probe failed.
    Unavailable,
    /// Millisecond tick counts since boot: now, and at the last input
    /// (Windows `GetTickCount` / `GetLastInputInfo`), both wrapping at 2^32.
    TickCounts { now_ms: u32, last_input_ms: u32 },
    /// Whole seconds since the last input event.
    Seconds(u64),
}

/// Whether `c` separates path components on either family of platforms.
pub open spec fn is_path_sep(c: char) -> bool {
    c == '/' || c == '\\'
}

/// The index just after the last separator in `p[..j]` (0 when there is none).
pub open spec fn segment_start(p: Seq<char>, j: int) -> int
    decreases j,
{
    if j <= 0 || j > p.len() {
        0
    } else if is_path_sep(p[j - 1]) {
        j
    } else {
        segment_start(p, j - 1)
    }
}

/// The last component of a path (`rsplit(['/', '\\']).next()`).
pub open spec fn last_segment(p: Seq<char>) -> Seq<char> {
    p.subrange(segment_start(p, p.len() as int), p.len() as int)
}

/// Whether the four characters `e` spell the `.exe` extension in any letter
/// case.
pub open spec fn is_exe_extension(e: Seq<char>) -> bool {
    &&& e.len() == 4
    &&& e[0] == '.'
    &&& (e[1] == 'e' || e[1] == 'E')
    &&& (e[2] == 'x' || e[2] == 'X')
    &&& (e[3] == 'e' || e[3] == 'E')
}

/// `s` without a trailing `.exe` extension, whatever its letter case.
pub open spec fn strip_exe(s: Seq<char>) -> Seq<char> {
    if s.len() >= 4 && is_exe_extension(s.subrange(s.len() - 4, s.len() as int)) {
        s.subrange(0, s.len() - 4)
    } else {
        s
    }
}

/// The display name an executable path stands for: its file name without
/// the `.exe` extension (in any letter case), or nothing when that is empty.
pub open spec fn exe_stem_of(p: Seq<char>) -> Option<Seq<char>> {
    let stem = strip_exe(last_segment(p));
    if stem.len() == 0 {
        None
    } else {
        Some(stem)
    }
}

/// Key and display name of the app behind an executable path: the file stem,
/// lower-cased for the key, unchanged for the name.
pub fn exe_stem(exe_path: &str) -> (r: Option<(String, String)>)
    ensures
        match exe_stem_of(exe_path@) {
            None => r is None,
            Some(stem) => r matches Some(p) && p.0@ == unicode_lowercase(stem) && p.1@ == stem,
        },
{
    let v = chars_of(exe_path);
    let mut j = v.len();
    while j > 0 && !(v[j - 1] == '/' || v[j - 1] == '\\')
        invariant
            j <= v.len(),
            segment_start(v@, v.len() as int) == segment_start(v@, j as int),
        decreases j,
    {
        j = j - 1;
    }
    let seg = slice_chars(&v, j, v.len());
    let n = seg.len();
    let is_exe = n >= 4 && seg[n - 4] == '.' && (seg[n - 3] == 'e' || seg[n - 3] == 'E') && (
    seg[n - 2] == 'x' || seg[n - 2] == 'X') && (seg[n - 1] == 'e' || seg[n - 1] == 'E');
    proof {
        if n >= 4 {
            let e = seg@.subrange(n - 4, n as int);
            assert(e[0] == seg@[n - 4]);
            assert(e[1] == seg@[n - 3]);
            assert(e[2] == seg@[n - 2]);
            assert(e[3] == seg@[n - 1]);
        }
    }
    let stem = if is_exe {
        slice_chars(&seg, 0, n - 4)
    } else {
        slice_chars(&seg, 0, n)
    };
    assert(seg@.subrange(0, n as int) =~= seg@);
    if stem.len() == 0 {
        return None;
    }
    let name = string_from(stem.as_slice());
    let key = to_lowercase(name.as_str());
    Some((key, name))
}

/// `tok` without a leading `0x`.
pub open spec fn strip_hex_prefix(tok: Seq<char>) -> Seq<char> {
    if starts_with(tok, seq!['0', 'x']) {
        tok.subrange(2, tok.len() as int)
    } else {
        tok
    }
}

/// The number in the `index`-th `sep`-separated field of the first line of
/// `text` that contains `marker`: the field's first token, read in `radix`
/// after dropping a `0x` when `hex` is set.
pub open spec fn labelled_number(
    text: Seq<char>,
    marker: Seq<char>,
    sep: char,
    radix: u32,
    hex: bool,
) -> Option<u32> {
    match first_containing(lines(text), marker) {
        None => None,
        Some(line) => {
            let fs = fields(line, sep);
            if fs.len() < 2 {
                None
            } else {
                match first_token(fs[1]) {
                    None => None,
                    Some(tok) => parsed_u32(
                        if hex {
                            strip_hex_prefix(tok)
                        } else {
                            tok
                        },
                        radix,
                    ),
                }
            }
        },
    }
}

/// The window id `xprop -root _NET_ACTIVE_WINDOW` printed: the hex number
/// after `#` on the line with `window id`.
pub open spec fn window_id_of(text: Seq<char>) -> Option<u32> {
    labelled_number(
        text,
        seq!['w', 'i', 'n', 'd', 'o', 'w', ' ', 'i', 'd'],
        '#',
        16,
        true,
    )
}

/// The process id `xprop` printed for `_NET_WM_PID`: the decimal number after
/// `=` on that line.
pub open spec fn pid_of(text: Seq<char>) -> Option<u32> {
    labelled_number(
        text,
        seq!['_', 'N', 'E', 'T', '_', 'W', 'M', '_', 'P', 'I', 'D'],
        '=',
        10,
        false,
    )
}

/// The class name of `WM_CLASS(STRING) = "inst", "Class"`: the fourth
/// `"`-separated field of the first line with `WM_CLASS`, when not empty.
pub open spec fn wm_class_of(text: Seq<char>) -> Option<Seq<char>> {
    match first_containing(lines(text), seq!['W', 'M', '_', 'C', 'L', 'A', 'S', 'S']) {
        None => None,
        Some(line) => {
            let fs = fields(line, '"');
            if fs.len() > 3 && fs[3].len() > 0 {
                Some(fs[3])
            } else {
                None
            }
        },
    }
}

fn labelled_number_in(text: &str, marker: &str, sep: char, radix: u32, hex: bool) -> (r: Option<u32>)
    requires
        radix == 10 || radix == 16,
    ensures
        r == labelled_number(text@, marker@, sep, radix, hex),
{
    let v = chars_of(text);
    let line = match line_containing(&v, marker) {
        None => {
            return None;
        },
        Some(l) => l,
    };
    let fs = split_on(&line, sep);
    if fs.len() < 2 {
        return None;
    }
    let ghost fsv = fs@.map_values(|l: Vec<char>| l@);
    assert(fsv[1] == fs@[1]@);
    let tok = match first_token_of(&fs[1]) {
        None => {
            return None;
        },
        Some(t) => t,
    };
    let body = if hex && tok.len() >= 2 && tok[0] == '0' && tok[1] == 'x' {
        assert(tok@.subrange(0, 2) =~= seq!['0', 'x']);
        slice_chars(&tok, 2, tok.len())
    } else {
        proof {
            if hex && starts_with(tok@, seq!['0', 'x']) {
                assert(tok@[0] == tok@.subrange(0, 2)[0]);
                assert(tok@[1] == tok@.subrange(0, 2)[1]);
            }
        }
        assert(tok@.subrange(0, tok@.len() as int) =~= tok@);
        slice_chars(&tok, 0, tok.len())
    };
    let s = string_from(body.as_slice());
    u32_from_radix(s.as_str(), radix)
}

/// The window id in `xprop -root _NET_ACTIVE_WINDOW` output.
pub fn extract_hex(text: &str) -> (r: Option<u32>)
    ensures
        r == window_id_of(text@),
{
    proof {
        reveal_strlit("window id");
    }
    let r = labelled_number_in(text, "window id", '#', 16, true);
    assert("window id"@ =~= seq!['w', 'i', 'n', 'd', 'o', 'w', ' ', 'i', 'd']);
    r
}

/// The process id in `xprop -id <window> _NET_WM_PID` output.
pub fn extract_pid(text: &str) -> (r: Option<u32>)
    ensures
        r == pid_of(text@),
{
    proof {
        reveal_strlit("_NET_WM_PID");
    }
    let r = labelled_number_in(text, "_NET_WM_PID", '=', 10, false);
    assert("_NET_WM_PID"@ =~= seq!['_', 'N', 'E', 'T', '_', 'W', 'M', '_', 'P', 'I', 'D']);
    r
}

/// The class name in `xprop -id <window> WM_CLASS` output.
pub fn extract_wm_class(text: &str) -> (r: Option<String>)
    ensures
        match wm_class_of(text@) {
            None => r is None,
            Some(c) => r matches Some(s) && s@ == c,
        },
{
    proof {
        reveal_strlit("WM_CLASS");
    }
    assert("WM_CLASS"@ =~= seq!['W', 'M', '_', 'C', 'L', 'A', 'S', 'S']);
    let v = chars_of(text);
    let line = match line_containing(&v, "WM_CLASS") {
        None => {
            return None;
        },
        Some(l) => l,
    };
    let fs = split_on(&line, '"');
    let ghost fsv = fs@.map_values(|l: Vec<char>| l@);
    if fs.len() > 3 && fs[3].len() > 0 {
        assert(fsv[3] == fs@[3]@);
        Some(string_from(fs[3].as_slice()))
    } else {
        proof {
            if fs.len() > 3 {
                assert(fsv[3] == fs@[3]@);
            }
        }
        None
    }
}

/// The digit for a value below 16 in lower-case hex.
pub open spec fn hex_digit(d: int) -> char {
    if d < 10 {
        (('0' as int) + d) as char
    } else {
        (('a' as int) + d - 10) as char
    }
}

/// `n` written in lower-case hex without leading zeros (`format!("{n:x}")`).
pub open spec fn lower_hex(n: nat) -> Seq<char>
    decreases n,
{
    if n < 16 {
        seq![hex_digit(n as int)]
    } else {
        lower_hex(n / 16) + seq![hex_digit((n % 16) as int)]
    }
}

fn hex_char(d: u128) -> (c: char)
    requires
        d < 16,
    ensures
        c == hex_digit(d as int),
{
    let b: u8 = if d < 10 {
        48 + d as u8
    } else {
        87 + d as u8
    };
    b as char
}

/// `n` in lower-case hex.
pub fn to_lower_hex(n: u128) -> (r: Vec<char>)
    ensures
        r@ == lower_hex(n as nat),
{
    let mut r: Vec<char> = Vec::new();
    let mut m = n;
    r.push(hex_char(m % 16));
    while m >= 16
        invariant
            m <= n,
            m > 0 ==> lower_hex(n as nat) == lower_hex(m as nat) + r@.drop_first(),
            r@.len() >= 1,
            r@[0] == hex_digit((m % 16) as int),
            lower_hex(n as nat) == lower_hex(m as nat) + r@.drop_first() || m == n,
            m == n ==> r@ == seq![hex_digit((n % 16) as int)],
        decreases m,
    {
        let ghost old_r = r@;
        let ghost old_m = m;
        m = m / 16;
        r.insert(0, hex_char(m % 16));
        proof {
            assert(lower_hex(old_m as nat) == lower_hex(m as nat) + seq![hex_digit((old_m % 16) as int)]);
            assert(r@.drop_first() =~= seq![hex_digit((old_m % 16) as int)] + old_r.drop_first());
            if old_m == n {
                assert(old_r.drop_first() =~= Seq::<char>::empty());
            }
            assert(lower_hex(n as nat) =~= lower_hex(m as nat) + r@.drop_first());
        }
    }
    proof {
        if m == n {
            assert(lower_hex(n as nat) == seq![hex_digit(n as int)]);
        } else {
            assert(lower_hex(m as nat) == seq![hex_digit(m as int)]);
            assert(r@ =~= seq![hex_digit(m as int)] + r@.drop_first());
        }
    }
    r
}

/// The `-id` argument for the second `xprop` call: the active window id in
/// `0x`-prefixed lower-case hex, or nothing when no window is active.
pub fn x11_window_arg(root_output: &str) -> (r: Option<String>)
    ensures
        match window_id_of(root_output@) {
            None => r is None,
            Some(w) => if w == 0 {
                r is None
            } else {
                r matches Some(s) && s@ == seq!['0', 'x'] + lower_hex(w as nat)
            },
        },
{
    let w = match extract_hex(root_output) {
        None => {
            return None;
        },
        Some(w) => w,
    };
    if w == 0 {
        return None;
    }
    let mut v: Vec<char> = Vec::new();
    v.push('0');
    v.push('x');
    let mut digits = to_lower_hex(w as u128);
    v.append(&mut digits);
    Some(string_from(v.as_slice()))
}

/// The display name of the focused X11 window: its `WM_CLASS` class name,
/// else the trimmed process name, when not empty.
pub open spec fn x11_name(props: Seq<char>, comm: Option<Seq<char>>) -> Option<Seq<char>> {
    match wm_class_of(props) {
        Some(c) => Some(c),
        None => match comm {
            Some(t) => if trim(t).len() > 0 {
                Some(trim(t))
            } else {
                None
            },
            None => None,
        },
    }
}

/// Key and display name of the app a reading describes.
pub open spec fn foreground_of(reading: ForegroundReading) -> Option<(Seq<char>, Seq<char>)> {
    match reading {
        ForegroundReading::Unsupported => None,
        ForegroundReading::Windows { exe_path } => match exe_path {
            None => None,
            Some(p) => match exe_stem_of(p@) {
                None => None,
                Some(stem) => Some((unicode_lowercase(stem), stem)),
            },
        },
        ForegroundReading::Mac { name, bundle_id } => match name {
            None => None,
            Some(n) => Some(
                (
                    unicode_lowercase(
                        match bundle_id {
                            Some(b) => b@,
                            None => n@,
                        },
                    ),
                    n@,
                ),
            ),
        },
        ForegroundReading::X11 { window_props, comm } => match window_props {
            None => None,
            Some(p) => match x11_name(
                p@,
                match comm {
                    Some(c) => Some(c@),
                    None => None,
                },
            ) {
                None => None,
                Some(n) => Some((unicode_lowercase(n), n)),
            },
        },
    }
}

/// On Windows and X11 an app found in the foreground has a non-empty name,
/// and its grouping key is that name lower-cased, so case changes in how an
/// app reports itself never split its usage.
pub proof fn lemma_foreground_key_is_lowercased_name(reading: ForegroundReading)
    requires
        reading is Windows || reading is X11,
    ensures
        foreground_of(reading) matches Some(kn) ==> kn.1.len() > 0 && kn.0 == unicode_lowercase(
            kn.1,
        ),
{
}

/// The app owning the focused window, from what the platform probe read;
/// `None` when the platform has no probe or the probe found nothing usable.
pub fn current_foreground_app(reading: ForegroundReading) -> (r: Option<ForegroundApp>)
    ensures
        match foreground_of(reading) {
            None => r is None,
            Some(kn) => r matches Some(a) && a.key@ == kn.0 && a.name@ == kn.1,
        },
{
    match reading {
        ForegroundReading::Unsupported => None,
        ForegroundReading::Windows { exe_path } => match exe_path {
            None => None,
            Some(p) => match exe_stem(p.as_str()) {
                None => None,
                Some((key, name)) => Some(ForegroundApp { key, name }),
            },
        },
        ForegroundReading::Mac { name, bundle_id } => match name {
            None => None,
            Some(n) => {
                let key = match &bundle_id {
                    Some(b) => to_lowercase(b.as_str()),
                    None => to_lowercase(n.as_str()),
                };
                Some(ForegroundApp { key, name: n })
            },
        },
        ForegroundReading::X11 { window_props, comm } => match window_props {
            None => None,
            Some(p) => {
                let name = match extract_wm_class(p.as_str()) {
                    Some(c) => c,
                    None => match &comm {
                        None => {
                            return None;
                        },
                        Some(t) => {
                            let trimmed = trim_chars(&chars_of(t.as_str()));
                            if trimmed.len() == 0 {
                                return None;
                            }
                            string_from(trimmed.as_slice())
                        },
                    },
                };
                let key = to_lowercase(name.as_str());
                Some(ForegroundApp { key, name })
            },
        },
    }
}

/// Whole seconds since the last input a reading describes. Tick counts wrap
/// at 2^32, so their difference is taken modulo 2^32.
pub open spec fn idle_of(reading: IdleReading) -> Option<u64> {
    match reading {
        IdleReading::Unavailable => None,
        IdleReading::TickCounts { now_ms, last_input_ms } => Some(
            (((now_ms as int - last_input_ms as int + 0x1_0000_0000) % 0x1_0000_0000) / 1000) as u64,
        ),
        IdleReading::Seconds(s) => Some(s),
    }
}

/// Seconds since the last user input, from what the platform reported;
/// `None` when it reported nothing.
pub fn current_idle_seconds(reading: IdleReading) -> (r: Option<u64>)
    ensures
        r == idle_of(reading),
{
    match reading {
        IdleReading::Unavailable => None,
        IdleReading::TickCounts { now_ms, last_input_ms } => {
            let idle_ms = now_ms.wrapping_sub(last_input_ms);
            assert(idle_ms as int == (now_ms as int - last_input_ms as int + 0x1_0000_0000)
                % 0x1_0000_0000) by {
                if now_ms >= last_input_ms {
                    assert((now_ms as int - last_input_ms as int + 0x1_0000_0000) % 0x1_0000_0000
                        == now_ms as int - last_input_ms as int);
                } else {
                    assert((now_ms as int - last_input_ms as int + 0x1_0000_0000) % 0x1_0000_0000
                        == now_ms as int - last_input_ms as int + 0x1_0000_0000);
                }
            }
            Some((idle_ms / 1000) as u64)
        },
        IdleReading::Seconds(s) => Some(s),
    }
}

/// Whether a sampler tick credits time: tracking is on, and the user has not
/// been idle for the configured number of minutes (0 turns the idle check off;
/// an unknown idle time never skips).
pub open spec fn tick_credits(track_app_usage: bool, idle_minutes: u64, idle: Option<u64>) -> bool {
    track_app_usage && !(match idle {
        Some(i) => idle_minutes > 0 && i >= idle_minutes * 60,
        None => false,
    })
}

/// Whether this sampler tick should credit `TICK_INTERVAL_SECS` to the
/// foreground app.
pub fn tick_should_record(track_app_usage: bool, idle_minutes: u64, idle: Option<u64>) -> (r: bool)
    ensures
        r == tick_credits(track_app_usage, idle_minutes, idle),
{
    if !track_app_usage {
        return false;
    }
    match idle {
        Some(i) => {
            if idle_minutes > 0 && i / 60 >= idle_minutes {
                assert(i >= idle_minutes * 60) by (nonlinear_arith)
                    requires
                        i / 60 >= idle_minutes,
                ;
                false
            } else {
                proof {
                    if idle_minutes > 0 && i >= idle_minutes * 60 {
                        assert(i / 60 >= idle_minutes) by (nonlinear_arith)
                            requires
                                i >= idle_minutes * 60,
                        ;
                    }
                }
                true
            }
        },
        None => true,
    }
}

} // verus!
