//! Model-provider settings: defaults, validation, the status view shown to the
//! UI, and how an edit from the settings form is merged in.
//!
//! The temperature is a single-precision float in the settings form. It is
//! carried here by its IEEE-754 bit pattern (`f32::to_bits`), which is all the
//! validation needs: for the bit patterns of non-negative floats the integer
//! order is the numeric order, so the range check is an integer comparison.

use crate::text::{
    blank, chars_of, is_blank, string_from, strip_trailing, strip_trailing_chars, trim, trim_chars,
    trim_end, trim_start, trimmed,
};
use vstd::prelude::*;
use vstd::string::*;

verus! {

/// Bit pattern of `2.0f32`.
pub const TEMPERATURE_MAX_BITS: u32 = 0x4000_0000;

/// Bit pattern of `-0.0f32`, which compares equal to `0.0`.
pub const NEGATIVE_ZERO_BITS: u32 = 0x8000_0000;

/// Bit pattern of the default temperature `0.7f32`.
pub const DEFAULT_TEMPERATURE_BITS: u32 = 0x3F33_3333;

/// Whether the `f32` with bit pattern `bits` lies in `0.0..=2.0`. Positive
/// zero up to `2.0` are the patterns `0..=0x4000_0000`; negative zero is the
/// only pattern with the sign bit set that is in range; no NaN pattern is.
pub open spec fn temperature_in_range(bits: u32) -> bool {
    bits <= TEMPERATURE_MAX_BITS || bits == NEGATIVE_ZERO_BITS
}

pub open spec fn default_base_url() -> Seq<char> {
    "https://api.openai.com/v1"@
}

pub open spec fn default_model() -> Seq<char> {
    "gpt-4.1-mini"@
}

pub open spec fn default_system_prompt() -> Seq<char> {
    "你是 iPet，一个常驻桌面的轻量助手。回答要简洁，必要时主动使用本地工具查看系统状态或分析目录占用。"@
}

/// Settings for the OpenAI-compatible model endpoint and the app features
/// that are toggled from the same form.
#[derive(Debug)]
pub struct LlmSettings {
    pub api_key: Option<String>,
    pub base_url: String,
    pub model: String,
    /// IEEE-754 bit pattern of the sampling temperature.
    pub temperature_bits: u32,
    pub max_context_messages: usize,
    pub system_prompt: String,
    pub auto_system_check_enabled: bool,
    pub auto_system_check_interval_minutes: u64,
    /// Fire an OS notification when a chat reply completes.
    pub notify_on_reply: bool,
    /// Fire an OS notification when the auto system check sees high load.
    pub notify_on_system_alert: bool,
    /// Sample the foreground window and accumulate per-app usage time.
    pub track_app_usage: bool,
    /// Idle minutes after which a sample is not credited; 0 disables the filter.
    pub app_usage_idle_minutes: u64,
}

/// The first field of the settings that fails validation.
#[derive(PartialEq, Eq, Structural, Clone, Copy, Debug)]
pub enum SettingsProblem {
    BlankBaseUrl,
    BlankModel,
    TemperatureOutOfRange,
    ContextOutOfRange,
    CheckIntervalOutOfRange,
    IdleMinutesOutOfRange,
}

pub open spec fn problem_message(p: SettingsProblem) -> Seq<char> {
    match p {
        SettingsProblem::BlankBaseUrl => "Base URL 不能为空"@,
        SettingsProblem::BlankModel => "模型名不能为空"@,
        SettingsProblem::TemperatureOutOfRange => "temperature 必须在 0 到 2 之间"@,
        SettingsProblem::ContextOutOfRange => "上下文消息数必须在 4 到 64 之间"@,
        SettingsProblem::CheckIntervalOutOfRange => "自动检查间隔必须在 1 到 120 分钟之间"@,
        SettingsProblem::IdleMinutesOutOfRange => "使用时长空闲阈值必须在 0 到 240 分钟之间"@,
    }
}

impl SettingsProblem {
    /// The message shown to the user for this problem.
    pub fn message(&self) -> (m: String)
        ensures
            m@ == problem_message(*self),
    {
        match self {
            SettingsProblem::BlankBaseUrl => String::from_str("Base URL 不能为空"),
            SettingsProblem::BlankModel => String::from_str("模型名不能为空"),
            SettingsProblem::TemperatureOutOfRange => String::from_str(
                "temperature 必须在 0 到 2 之间",
            ),
            SettingsProblem::ContextOutOfRange => String::from_str("上下文消息数必须在 4 到 64 之间"),
            SettingsProblem::CheckIntervalOutOfRange => String::from_str(
                "自动检查间隔必须在 1 到 120 分钟之间",
            ),
            SettingsProblem::IdleMinutesOutOfRange => String::from_str(
                "使用时长空闲阈值必须在 0 到 240 分钟之间",
            ),
        }
    }
}

/// The base URL with surrounding whitespace and trailing slashes removed.
pub open spec fn normalized_url(url: Seq<char>) -> Seq<char> {
    strip_trailing(trim(url), '/')
}

/// A key counts as present only when something other than whitespace is in it.
pub open spec fn has_key(key: Option<String>) -> bool {
    match key {
        Some(k) => !is_blank(k@),
        None => false,
    }
}

/// The view of an optional string.
pub open spec fn opt_view(o: Option<String>) -> Option<Seq<char>> {
    match o {
        Some(s) => Some(s@),
        None => None,
    }
}

impl LlmSettings {
    /// The first field that fails validation, in the order the checks run.
    pub open spec fn problem(self) -> Option<SettingsProblem> {
        if normalized_url(self.base_url@).len() == 0 {
            Some(SettingsProblem::BlankBaseUrl)
        } else if is_blank(self.model@) {
            Some(SettingsProblem::BlankModel)
        } else if !temperature_in_range(self.temperature_bits) {
            Some(SettingsProblem::TemperatureOutOfRange)
        } else if !(4 <= self.max_context_messages <= 64) {
            Some(SettingsProblem::ContextOutOfRange)
        } else if !(1 <= self.auto_system_check_interval_minutes <= 120) {
            Some(SettingsProblem::CheckIntervalOutOfRange)
        } else if !(self.app_usage_idle_minutes <= 240) {
            Some(SettingsProblem::IdleMinutesOutOfRange)
        } else {
            None
        }
    }

    /// The base URL with surrounding whitespace and trailing `/` removed.
    pub fn normalized_base_url(&self) -> (r: String)
        ensures
            r@ == normalized_url(self.base_url@),
    {
        let chars = chars_of(self.base_url.as_str());
        let t = trim_chars(&chars);
        let n = strip_trailing_chars(&t, '/');
        string_from(n.as_slice())
    }

    /// Check the fields a user can edit; the error names the first bad one.
    pub fn validate_public_fields(&self) -> (r: Result<(), String>)
        ensures
            match self.problem() {
                None => r is Ok,
                Some(p) => r matches Err(m) && m@ == problem_message(p),
            },
    {
        let url = chars_of(self.base_url.as_str());
        let url = strip_trailing_chars(&trim_chars(&url), '/');
        let problem = if url.len() == 0 {
            Some(SettingsProblem::BlankBaseUrl)
        } else if blank(self.model.as_str()) {
            Some(SettingsProblem::BlankModel)
        } else if !(self.temperature_bits <= TEMPERATURE_MAX_BITS || self.temperature_bits
            == NEGATIVE_ZERO_BITS) {
            Some(SettingsProblem::TemperatureOutOfRange)
        } else if !(4 <= self.max_context_messages && self.max_context_messages <= 64) {
            Some(SettingsProblem::ContextOutOfRange)
        } else if !(1 <= self.auto_system_check_interval_minutes
            && self.auto_system_check_interval_minutes <= 120) {
            Some(SettingsProblem::CheckIntervalOutOfRange)
        } else if !(self.app_usage_idle_minutes <= 240) {
            Some(SettingsProblem::IdleMinutesOutOfRange)
        } else {
            None
        };
        match problem {
            Some(p) => Err(p.message()),
            None => Ok(()),
        }
    }

    /// Replace a blank system prompt by the default one.
    pub fn fill_blank_system_prompt(&mut self)
        ensures
            is_blank(old(self).system_prompt@) ==> final(self).system_prompt@
                == default_system_prompt(),
            !is_blank(old(self).system_prompt@) ==> final(self).system_prompt
                == old(self).system_prompt,
            final(self).api_key == old(self).api_key,
            final(self).base_url == old(self).base_url,
            final(self).model == old(self).model,
            final(self).temperature_bits == old(self).temperature_bits,
            final(self).max_context_messages == old(self).max_context_messages,
            final(self).auto_system_check_enabled == old(self).auto_system_check_enabled,
            final(self).auto_system_check_interval_minutes
                == old(self).auto_system_check_interval_minutes,
            final(self).notify_on_reply == old(self).notify_on_reply,
            final(self).notify_on_system_alert == old(self).notify_on_system_alert,
            final(self).track_app_usage == old(self).track_app_usage,
            final(self).app_usage_idle_minutes == old(self).app_usage_idle_minutes,
    {
        if blank(self.system_prompt.as_str()) {
            self.system_prompt = default_system_prompt_string();
        }
    }
}

fn default_system_prompt_string() -> (s: String)
    ensures
        s@ == default_system_prompt(),
{
    String::from_str(
        "你是 iPet，一个常驻桌面的轻量助手。回答要简洁，必要时主动使用本地工具查看系统状态或分析目录占用。",
    )
}

/// Exactly the settings within the documented bounds validate: a base URL
/// that is not blank once trimmed of whitespace and trailing `/`, a model
/// that is not blank, a temperature in [0, 2] (as `f32` bits: up to
/// `0x4000_0000`, which is 2.0, or `0x8000_0000`, which is -0.0), 4 to 64
/// context messages, a check interval of 1 to 120 minutes and at most 240
/// idle minutes. A context size outside 4..=64 is always rejected.
pub proof fn lemma_bounds_decide_validity(s: LlmSettings)
    ensures
        s.problem() is None <==> (normalized_url(s.base_url@).len() > 0 && !is_blank(s.model@)
            && (s.temperature_bits <= 0x4000_0000 || s.temperature_bits == 0x8000_0000) && 4
            <= s.max_context_messages <= 64 && 1 <= s.auto_system_check_interval_minutes <= 120
            && s.app_usage_idle_minutes <= 240),
        !(4 <= s.max_context_messages <= 64) ==> s.problem() is Some,
        s.problem() == Some(SettingsProblem::ContextOutOfRange) ==> !(4 <= s.max_context_messages
            <= 64),
{
}

/// The defaults a fresh install starts with.
pub open spec fn is_default_settings(s: LlmSettings) -> bool {
    &&& s.api_key is None
    &&& s.base_url@ == default_base_url()
    &&& s.model@ == default_model()
    &&& s.temperature_bits == DEFAULT_TEMPERATURE_BITS
    &&& s.max_context_messages == 18
    &&& s.system_prompt@ == default_system_prompt()
    &&& !s.auto_system_check_enabled
    &&& s.auto_system_check_interval_minutes == 10
    &&& !s.notify_on_reply
    &&& !s.notify_on_system_alert
    &&& s.track_app_usage
    &&& s.app_usage_idle_minutes == 5
}

/// The settings a fresh install starts with pass validation.
pub proof fn lemma_defaults_valid(s: LlmSettings)
    requires
        is_default_settings(s),
    ensures
        s.problem() is None,
{
    reveal_strlit("https://api.openai.com/v1");
    reveal_strlit("gpt-4.1-mini");
    let u = s.base_url@;
    assert(!crate::text::is_space(u[0]));
    assert(trim_start(u) == u);
    assert(!crate::text::is_space(u.last()));
    assert(trim_end(u) == u);
    assert(strip_trailing(u, '/') == u);
    let m = s.model@;
    assert(!crate::text::is_space(m[0]));
    assert(trim_start(m) == m);
    assert(!crate::text::is_space(m.last()));
    assert(trim_end(m) == m);
}

impl Default for LlmSettings {
    fn default() -> (s: Self)
        ensures
            is_default_settings(s),
    {
        LlmSettings {
            api_key: None,
            base_url: String::from_str("https://api.openai.com/v1"),
            model: String::from_str("gpt-4.1-mini"),
            temperature_bits: DEFAULT_TEMPERATURE_BITS,
            max_context_messages: 18,
            system_prompt: default_system_prompt_string(),
            auto_system_check_enabled: false,
            auto_system_check_interval_minutes: default_auto_system_check_interval_minutes(),
            notify_on_reply: false,
            notify_on_system_alert: false,
            track_app_usage: default_track_app_usage(),
            app_usage_idle_minutes: default_app_usage_idle_minutes(),
        }
    }
}

/// Minutes between automatic system checks when none is stored.
pub fn default_auto_system_check_interval_minutes() -> (m: u64)
    ensures
        m == 10,
{
    10
}

/// App-usage tracking is on unless the user turns it off.
pub fn default_track_app_usage() -> (b: bool)
    ensures
        b,
{
    true
}

/// Idle minutes after which usage samples are skipped, when none is stored.
pub fn default_app_usage_idle_minutes() -> (m: u64)
    ensures
        m == 5,
{
    5
}

/// What the settings page is shown: everything but the key itself, which is
/// reduced to whether one is stored.
#[derive(Debug)]
pub struct LlmSettingsStatus {
    pub has_api_key: bool,
    pub base_url: String,
    pub model: String,
    pub temperature_bits: u32,
    pub max_context_messages: usize,
    pub system_prompt: String,
    pub auto_system_check_enabled: bool,
    pub auto_system_check_interval_minutes: u64,
    pub notify_on_reply: bool,
    pub notify_on_system_alert: bool,
    pub track_app_usage: bool,
    pub app_usage_idle_minutes: u64,
    pub settings_path: String,
}

impl LlmSettingsStatus {
    /// The status of `settings` stored at `settings_path` (the database path
    /// as displayed).
    pub fn from_settings(settings: &LlmSettings, settings_path: String) -> (r: Self)
        ensures
            r.has_api_key == has_key(settings.api_key),
            r.base_url@ == settings.base_url@,
            r.model@ == settings.model@,
            r.temperature_bits == settings.temperature_bits,
            r.max_context_messages == settings.max_context_messages,
            r.system_prompt@ == settings.system_prompt@,
            r.auto_system_check_enabled == settings.auto_system_check_enabled,
            r.auto_system_check_interval_minutes == settings.auto_system_check_interval_minutes,
            r.notify_on_reply == settings.notify_on_reply,
            r.notify_on_system_alert == settings.notify_on_system_alert,
            r.track_app_usage == settings.track_app_usage,
            r.app_usage_idle_minutes == settings.app_usage_idle_minutes,
            r.settings_path == settings_path,
    {
        let has_api_key = match &settings.api_key {
            Some(key) => !blank(key.as_str()),
            None => false,
        };
        LlmSettingsStatus {
            has_api_key,
            base_url: settings.base_url.clone(),
            model: settings.model.clone(),
            temperature_bits: settings.temperature_bits,
            max_context_messages: settings.max_context_messages,
            system_prompt: settings.system_prompt.clone(),
            auto_system_check_enabled: settings.auto_system_check_enabled,
            auto_system_check_interval_minutes: settings.auto_system_check_interval_minutes,
            notify_on_reply: settings.notify_on_reply,
            notify_on_system_alert: settings.notify_on_system_alert,
            track_app_usage: settings.track_app_usage,
            app_usage_idle_minutes: settings.app_usage_idle_minutes,
            settings_path,
        }
    }
}

/// An edit submitted from the settings form.
#[derive(Debug)]
pub struct LlmSettingsInput {
    pub api_key: Option<String>,
    pub clear_api_key: bool,
    pub base_url: String,
    pub model: String,
    pub temperature_bits: u32,
    pub max_context_messages: usize,
    pub system_prompt: String,
    pub auto_system_check_enabled: bool,
    pub auto_system_check_interval_minutes: u64,
    pub notify_on_reply: bool,
    pub notify_on_system_alert: bool,
    pub track_app_usage: bool,
    pub app_usage_idle_minutes: u64,
}

/// The stored key after an edit: cleared on request, replaced by a new
/// non-blank key (trimmed), otherwise kept.
pub open spec fn merged_key(
    current: Option<Seq<char>>,
    provided: Option<Seq<char>>,
    clear: bool,
) -> Option<Seq<char>> {
    if clear {
        None
    } else {
        match provided {
            Some(k) => if trim(k).len() != 0 {
                Some(trim(k))
            } else {
                current
            },
            None => current,
        }
    }
}

/// Saving the form with the key field left blank (or absent) keeps the stored
/// key, and ticking "clear" removes it whatever the field holds.
pub proof fn lemma_blank_key_keeps_stored(
    current: Option<Seq<char>>,
    provided: Option<Seq<char>>,
    clear: bool,
)
    ensures
        clear ==> merged_key(current, provided, clear) is None,
        !clear && (provided is None || is_blank(provided->0)) ==> merged_key(
            current,
            provided,
            clear,
        ) == current,
{
}

impl LlmSettingsInput {
    /// Apply this edit to `current`.
    pub fn merge_into(self, current: &mut LlmSettings)
        ensures
            final(current).base_url@ == normalized_url(self.base_url@),
            final(current).model@ == trim(self.model@),
            final(current).temperature_bits == self.temperature_bits,
            final(current).max_context_messages == self.max_context_messages,
            final(current).system_prompt@ == trim(self.system_prompt@),
            final(current).auto_system_check_enabled == self.auto_system_check_enabled,
            final(current).auto_system_check_interval_minutes
                == self.auto_system_check_interval_minutes,
            final(current).notify_on_reply == self.notify_on_reply,
            final(current).notify_on_system_alert == self.notify_on_system_alert,
            final(current).track_app_usage == self.track_app_usage,
            final(current).app_usage_idle_minutes == self.app_usage_idle_minutes,
            opt_view(final(current).api_key) == merged_key(
                opt_view(old(current).api_key),
                opt_view(self.api_key),
                self.clear_api_key,
            ),
    {
        let url = chars_of(self.base_url.as_str());
        let url = trim_chars(&url);
        let url = strip_trailing_chars(&url, '/');
        current.base_url = string_from(url.as_slice());
        current.model = trimmed(self.model.as_str());
        current.temperature_bits = self.temperature_bits;
        current.max_context_messages = self.max_context_messages;
        current.system_prompt = trimmed(self.system_prompt.as_str());
        current.auto_system_check_enabled = self.auto_system_check_enabled;
        current.auto_system_check_interval_minutes = self.auto_system_check_interval_minutes;
        current.notify_on_reply = self.notify_on_reply;
        current.notify_on_system_alert = self.notify_on_system_alert;
        current.track_app_usage = self.track_app_usage;
        current.app_usage_idle_minutes = self.app_usage_idle_minutes;
        if self.clear_api_key {
            current.api_key = None;
        } else if let Some(api_key) = self.api_key {
            let t = trim_chars(&chars_of(api_key.as_str()));
            if t.len() != 0 {
                current.api_key = Some(string_from(t.as_slice()));
            }
        }
    }
}

} // verus!
