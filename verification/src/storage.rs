//! The records the database keeps and the rules around them: retention
//! defaults, schema migration order, the built-in tools' registry entries, the
//! statistics windows, and the pomodoro session kinds.
//!
//! The SQL itself runs in the host against SQLite; these functions decide
//! what it is asked and shape what it returns.

use crate::error::AppError;
use crate::text::{chars_of, str_eq};
use crate::tools::{clamp, invalid_about, ToolConfig};
use vstd::prelude::*;
use vstd::string::*;

verus! {

/// One stored chat message.
#[derive(Debug)]
pub struct ChatRecord {
    pub id: i64,
    pub role: String,
    pub content: String,
    pub created_at: String,
}

/// One model request's token accounting.
#[derive(Debug)]
pub struct TokenUsageRecord {
    pub id: i64,
    pub request_id: String,
    pub model: String,
    pub prompt_tokens: i64,
    pub completion_tokens: i64,
    pub total_tokens: i64,
    pub tool_calls: i64,
    pub created_at: String,
}

/// Token totals under one label (a day or a model).
#[derive(Debug)]
pub struct TokenUsageBucket {
    pub label: String,
    pub prompt_tokens: i64,
    pub completion_tokens: i64,
    pub total_tokens: i64,
    pub requests: i64,
}

/// Token usage overall, by day, by model, and the latest requests.
#[derive(Debug)]
pub struct TokenUsageStats {
    pub prompt_tokens: i64,
    pub completion_tokens: i64,
    pub total_tokens: i64,
    pub requests: i64,
    pub tool_calls: i64,
    pub by_day: Vec<TokenUsageBucket>,
    pub by_model: Vec<TokenUsageBucket>,
    pub recent: Vec<TokenUsageRecord>,
}

/// How much history the retention sweep keeps.
#[derive(Debug)]
pub struct RetentionPolicy {
    pub chat_keep: usize,
    pub token_usage_days: u32,
    pub system_samples_days: u32,
    pub disk_scan_days: u32,
}

impl Default for RetentionPolicy {
    /// The last 2000 chat messages, 90 days of token usage, 30 days of system
    /// samples and disk scans.
    fn default() -> (r: Self)
        ensures
            r.chat_keep == 2000,
            r.token_usage_days == 90,
            r.system_samples_days == 30,
            r.disk_scan_days == 30,
    {
        RetentionPolicy {
            chat_keep: 2000,
            token_usage_days: 90,
            system_samples_days: 30,
            disk_scan_days: 30,
        }
    }
}

/// How many rows a retention sweep removed from each table.
#[derive(Debug)]
pub struct RetentionReport {
    pub chat_removed: usize,
    pub tokens_removed: usize,
    pub samples_removed: usize,
    pub disk_removed: usize,
}

impl Default for RetentionReport {
    /// Nothing removed.
    fn default() -> (r: Self)
        ensures
            r.chat_removed == 0,
            r.tokens_removed == 0,
            r.samples_removed == 0,
            r.disk_removed == 0,
    {
        RetentionReport { chat_removed: 0, tokens_removed: 0, samples_removed: 0, disk_removed: 0 }
    }
}

/// One day's pomodoro sessions.
#[derive(Debug)]
pub struct PomodoroDayBucket {
    pub day: String,
    pub work_count: i64,
    pub break_count: i64,
}

/// Pomodoro sessions over a range of days.
#[derive(Debug)]
pub struct PomodoroStats {
    pub range: String,
    pub total_work: i64,
    pub total_break: i64,
    pub by_day: Vec<PomodoroDayBucket>,
}

/// One app's foreground time over a range.
#[derive(Debug)]
pub struct AppUsageEntry {
    pub app_key: String,
    pub app_name: String,
    pub seconds: i64,
    pub last_seen: Option<String>,
}

/// One day's foreground time over all apps.
#[derive(Debug)]
pub struct AppUsageDayBucket {
    pub day: String,
    pub seconds: i64,
}

/// Foreground time over a range of days.
#[derive(Debug)]
pub struct AppUsageStats {
    pub range: String,
    pub total_seconds: i64,
    pub by_app: Vec<AppUsageEntry>,
    pub by_day: Vec<AppUsageDayBucket>,
}

/// The number of schema migrations; a database at this version is current.
pub const SCHEMA_VERSION: i64 = 2;

/// The first migration target still to run on a database at `current`.
pub open spec fn first_pending(current: int) -> int {
    if current < 0 {
        1
    } else {
        current + 1
    }
}

/// How many of the `count` migrations still run on a database at `current`.
pub open spec fn pending_count(current: int, count: int) -> int {
    if count - first_pending(current) + 1 < 0 {
        0
    } else {
        count - first_pending(current) + 1
    }
}

/// The target versions of the migrations to run on a database at `current`,
/// in order: every version from the one after `current` up to `count`.
pub fn pending_migrations(current: i64, count: usize) -> (r: Vec<i64>)
    requires
        count < i64::MAX,
    ensures
        r@.len() == pending_count(current as int, count as int),
        forall|k: int| 0 <= k < r@.len() ==> #[trigger] r@[k] == first_pending(current as int) + k,
{
    let mut r: Vec<i64> = Vec::new();
    let mut v: usize = 0;
    while v < count
        invariant
            v <= count,
            count < i64::MAX,
            r@.len() == pending_count(current as int, v as int),
            forall|k: int| 0 <= k < r@.len() ==> #[trigger] r@[k] == first_pending(current as int) + k,
        decreases count - v,
    {
        let target = (v + 1) as i64;
        if current < target {
            r.push(target);
        }
        v = v + 1;
    }
    r
}

/// The registry entry of a built-in tool from its manifest: kind `builtin`,
/// marked built in, no HTTP or local configuration.
pub fn builtin_tool_config(
    name: String,
    display_name: String,
    description: String,
    enabled: bool,
    parameters: String,
    updated_at: String,
) -> (r: ToolConfig)
    ensures
        r.name == name,
        r.display_name == display_name,
        r.description == description,
        r.kind@ == "builtin"@,
        r.enabled == enabled,
        r.built_in,
        r.parameters == parameters,
        r.http is None,
        r.local is None,
        r.updated_at == updated_at,
{
    ToolConfig {
        name,
        display_name,
        description,
        kind: String::from_str("builtin"),
        enabled,
        built_in: true,
        parameters,
        http: None,
        local: None,
        updated_at,
    }
}

/// A manifest that leaves `enabled` out is enabled.
pub fn default_true() -> (r: bool)
    ensures
        r,
{
    true
}

/// The day range a statistics view covers: how many days before today it
/// starts, and the label it is reported under.
#[derive(Debug)]
pub struct StatsWindow {
    pub days_back: u32,
    pub label: &'static str,
}

/// `today` covers today only, `30d` the last 30 days, anything else the
/// last 7 days.
pub fn stats_window(range: &str) -> (r: StatsWindow)
    ensures
        range@ == "today"@ ==> r.days_back == 0 && r.label@ == "today"@,
        range@ == "30d"@ ==> r.days_back == 29 && r.label@ == "30d"@,
        range@ != "today"@ && range@ != "30d"@ ==> r.days_back == 6 && r.label@ == "7d"@,
{
    proof {
        reveal_strlit("today");
        reveal_strlit("30d");
        assert("today"@[0] != "30d"@[0]);
    }
    if str_eq(range, "today") {
        StatsWindow { days_back: 0, label: "today" }
    } else if str_eq(range, "30d") {
        StatsWindow { days_back: 29, label: "30d" }
    } else {
        StatsWindow { days_back: 6, label: "7d" }
    }
}

/// Apps listed in usage statistics: within 1..=200.
pub fn usage_app_limit(limit: usize) -> (r: usize)
    ensures
        r == clamp(limit as int, 1, 200),
{
    if limit < 1 {
        1
    } else if limit > 200 {
        200
    } else {
        limit
    }
}

/// A pomodoro session is `work` or `break`; anything else is refused so it
/// cannot skew the statistics.
pub fn check_pomodoro_kind(kind: &str) -> (r: Result<(), AppError>)
    ensures
        kind@ == "work"@ || kind@ == "break"@ ==> r is Ok,
        !(kind@ == "work"@ || kind@ == "break"@) ==> (r matches Err(AppError::InvalidInput(m))
            && m@ == "番茄钟类型必须是 work 或 break，收到: "@ + kind@),
{
    if str_eq(kind, "work") || str_eq(kind, "break") {
        Ok(())
    } else {
        Err(invalid_about("番茄钟类型必须是 work 或 break，收到: ", kind))
    }
}

/// Messages read newest first, put back in the order they were written.
pub fn chronological(newest_first: Vec<ChatRecord>) -> (r: Vec<ChatRecord>)
    ensures
        r@ == newest_first@.reverse(),
{
    let mut r: Vec<ChatRecord> = Vec::new();
    let mut rest = newest_first;
    let ghost all = rest@;
    while rest.len() > 0
        invariant
            rest@.len() <= all.len(),
            rest@ == all.subrange(0, rest@.len() as int),
            r@ == all.subrange(rest@.len() as int, all.len() as int).reverse(),
        decreases rest.len(),
    {
        let ghost before = r@;
        let m = rest.pop().unwrap();
        r.push(m);
        proof {
            let n = rest@.len() as int;
            assert(all[n] == m);
            assert(r@ =~= all.subrange(n, all.len() as int).reverse());
        }
    }
    assert(all.subrange(0, all.len() as int) =~= all);
    r
}

} // verus!
