//! The chat side of the model client: the message list sent to an
//! OpenAI-compatible `chat/completions` endpoint, token accounting, the
//! decision procedure of the multi-round tool-call loop, and the framing of
//! the server-sent event stream. The HTTP requests themselves are made by the
//! host, which feeds the replies back into the functions here.

use crate::config::{has_key, normalized_url, LlmSettings};
use crate::error::AppError;
use crate::text::{blank, chars_of, str_eq, string_from, strip_trailing_chars, trim_chars};
use vstd::prelude::*;
use vstd::string::*;

verus! {

/// Upper bound on tool-call rounds. The final allowed round drops tools from
/// the request so the model is forced to produce a text answer.
pub const MAX_TOOL_ROUNDS: usize = 6;

/// One message as the chat UI shows it.
#[derive(Debug)]
pub struct ChatUiMessage {
    pub role: String,
    pub content: String,
}

/// A chat turn requested by the UI.
#[derive(Debug)]
pub struct ChatRequest {
    pub request_id: String,
    pub messages: Vec<ChatUiMessage>,
}

/// Token counts reported by the provider.
#[derive(Clone, Copy, PartialEq, Eq, Structural, Debug)]
pub struct TokenUsage {
    pub prompt_tokens: i64,
    pub completion_tokens: i64,
    pub total_tokens: i64,
}

/// Whether adding `b` to `a` stays within `i64` in every field.
pub open spec fn usage_fits(a: TokenUsage, b: TokenUsage) -> bool {
    &&& i64::MIN <= a.prompt_tokens + b.prompt_tokens <= i64::MAX
    &&& i64::MIN <= a.completion_tokens + b.completion_tokens <= i64::MAX
    &&& i64::MIN <= a.total_tokens + b.total_tokens <= i64::MAX
}

/// Field-wise sum of two usages (only meaningful when `usage_fits`).
pub open spec fn usage_sum(a: TokenUsage, b: TokenUsage) -> TokenUsage {
    TokenUsage {
        prompt_tokens: (a.prompt_tokens + b.prompt_tokens) as i64,
        completion_tokens: (a.completion_tokens + b.completion_tokens) as i64,
        total_tokens: (a.total_tokens + b.total_tokens) as i64,
    }
}

/// The usage after absorbing an optional report.
pub open spec fn usage_plus(a: TokenUsage, b: Option<TokenUsage>) -> TokenUsage {
    match b {
        Some(b) => usage_sum(a, b),
        None => a,
    }
}

pub open spec fn usage_absorbable(a: TokenUsage, b: Option<TokenUsage>) -> bool {
    match b {
        Some(b) => usage_fits(a, b),
        None => true,
    }
}

/// Absorbing a usage report adds each of its counts to the running total;
/// a missing report changes nothing.
pub proof fn lemma_usage_accumulates(a: TokenUsage, b: TokenUsage)
    requires
        usage_fits(a, b),
    ensures
        usage_plus(a, Some(b)).prompt_tokens == a.prompt_tokens + b.prompt_tokens,
        usage_plus(a, Some(b)).completion_tokens == a.completion_tokens + b.completion_tokens,
        usage_plus(a, Some(b)).total_tokens == a.total_tokens + b.total_tokens,
        usage_plus(a, None) == a,
{
}

impl TokenUsage {
    /// No tokens.
    pub fn zero() -> (u: TokenUsage)
        ensures
            u.prompt_tokens == 0 && u.completion_tokens == 0 && u.total_tokens == 0,
    {
        TokenUsage { prompt_tokens: 0, completion_tokens: 0, total_tokens: 0 }
    }

    /// Whether a turn's usage is worth a statistics row: the provider
    /// reported some tokens.
    pub fn worth_recording(&self) -> (b: bool)
        ensures
            b == (self.total_tokens > 0),
    {
        self.total_tokens > 0
    }

    /// Whether `other` can be added without leaving the `i64` range.
    pub fn can_add(&self, other: Option<&TokenUsage>) -> (b: bool)
        ensures
            b == usage_absorbable(*self, match other {
                Some(o) => Some(*o),
                None => None,
            }),
    {
        match other {
            None => true,
            Some(o) => {
                let p = self.prompt_tokens as i128 + o.prompt_tokens as i128;
                let c = self.completion_tokens as i128 + o.completion_tokens as i128;
                let t = self.total_tokens as i128 + o.total_tokens as i128;
                i64::MIN as i128 <= p && p <= i64::MAX as i128 && i64::MIN as i128 <= c && c
                    <= i64::MAX as i128 && i64::MIN as i128 <= t && t <= i64::MAX as i128
            },
        }
    }

    /// Add another report field by field; a missing report changes nothing.
    pub fn add(&mut self, other: Option<&TokenUsage>)
        requires
            usage_absorbable(*old(self), match other {
                Some(o) => Some(*o),
                None => None,
            }),
        ensures
            *final(self) == usage_plus(*old(self), match other {
                Some(o) => Some(*o),
                None => None,
            }),
    {
        if let Some(other) = other {
            self.prompt_tokens = self.prompt_tokens + other.prompt_tokens;
            self.completion_tokens = self.completion_tokens + other.completion_tokens;
            self.total_tokens = self.total_tokens + other.total_tokens;
        }
    }
}

/// The outcome of a full chat turn.
#[derive(Debug)]
pub struct ChatTurnResult {
    pub text: String,
    pub usage: TokenUsage,
    pub tool_call_count: usize,
    /// Reasoning text the model emitted before its answer, if any.
    pub reasoning: String,
}

/// The function a tool call names, with its JSON arguments.
#[derive(Debug)]
pub struct ToolCallFunction {
    pub name: String,
    pub arguments: String,
}

/// A tool call requested by the model.
#[derive(Debug)]
pub struct ToolCall {
    pub id: String,
    pub kind: String,
    pub function: ToolCallFunction,
}

impl ToolCall {
    /// A field-for-field copy.
    pub fn duplicate(&self) -> (r: ToolCall)
        ensures
            r == *self,
    {
        ToolCall {
            id: self.id.clone(),
            kind: self.kind.clone(),
            function: ToolCallFunction {
                name: self.function.name.clone(),
                arguments: self.function.arguments.clone(),
            },
        }
    }
}

/// A copy of a list of tool calls.
pub fn duplicate_calls(calls: &Vec<ToolCall>) -> (r: Vec<ToolCall>)
    ensures
        r@ == calls@,
{
    let mut r: Vec<ToolCall> = Vec::new();
    let mut i: usize = 0;
    while i < calls.len()
        invariant
            i <= calls.len(),
            r@ == calls@.subrange(0, i as int),
        decreases calls.len() - i,
    {
        r.push(calls[i].duplicate());
        i = i + 1;
        assert(r@ =~= calls@.subrange(0, i as int));
    }
    assert(calls@.subrange(0, calls.len() as int) =~= calls@);
    r
}

/// One message of the OpenAI chat protocol.
#[derive(Debug)]
pub struct OpenAiMessage {
    pub role: String,
    pub content: Option<String>,
    pub tool_call_id: Option<String>,
    pub tool_calls: Option<Vec<ToolCall>>,
}

/// The view of an optional string.
pub open spec fn opt_chars(o: Option<String>) -> Option<Seq<char>> {
    match o {
        Some(s) => Some(s@),
        None => None,
    }
}

/// Role sent to the provider for a role stored by the UI: anything other than
/// `assistant` and `system` is sent as `user`.
pub open spec fn provider_role(role: Seq<char>) -> Seq<char> {
    if role == "assistant"@ {
        "assistant"@
    } else if role == "system"@ {
        "system"@
    } else {
        "user"@
    }
}

/// Lines joined by `\n`.
pub open spec fn join_lines(lines: Seq<Seq<char>>) -> Seq<char>
    decreases lines.len(),
{
    if lines.len() == 0 {
        Seq::empty()
    } else if lines.len() == 1 {
        lines[0]
    } else {
        join_lines(lines.drop_last()) + "\n"@ + lines.last()
    }
}

pub open spec fn memory_header() -> Seq<char> {
    "\n\n# 长期记忆（跨会话，持续生效）\n"@
}

/// The system message: the prompt, followed by the memory block when there
/// are memories.
pub open spec fn system_content(prompt: Seq<char>, memories: Seq<Seq<char>>) -> Seq<char> {
    if memories.len() == 0 {
        prompt
    } else {
        prompt + memory_header() + join_lines(memories)
    }
}

/// How many of `n` UI messages are sent with a context limit of `limit`.
pub open spec fn kept(limit: usize, n: int) -> int {
    if limit < n {
        limit as int
    } else {
        n
    }
}

/// The request carries the most recent UI messages up to the context limit:
/// all of them when there are no more than the limit, exactly the limit's
/// worth otherwise; never more than either.
pub proof fn lemma_context_window(limit: usize, n: int)
    requires
        0 <= n,
    ensures
        n <= limit ==> kept(limit, n) == n,
        limit < n ==> kept(limit, n) == limit,
        0 <= kept(limit, n) <= n,
        kept(limit, n) <= limit,
{
}

/// Client-side state of a model conversation: the validated settings and the
/// long-term memory lines injected into the system prompt.
#[derive(Debug)]
pub struct LlmClient {
    pub settings: LlmSettings,
    pub recent_memories: Vec<String>,
}

/// The error for a missing API key.
pub open spec fn missing_key_message() -> Seq<char> {
    "请先在设置页面配置 API Key"@
}

pub open spec fn memories_view(m: Seq<String>) -> Seq<Seq<char>> {
    m.map_values(|s: String| s@)
}

impl LlmClient {
    /// A client for `settings`, which must carry a non-blank API key and pass
    /// validation.
    pub fn new(settings: LlmSettings) -> (r: Result<LlmClient, AppError>)
        ensures
            !has_key(settings.api_key) ==> (r matches Err(AppError::Config(m)) && m@
                == missing_key_message()),
            has_key(settings.api_key) && settings.problem() is Some ==> (r matches Err(
                AppError::Config(m),
            ) && m@ == crate::config::problem_message(settings.problem()->0)),
            has_key(settings.api_key) && settings.problem() is None ==> (r matches Ok(c)
                && c.settings == settings && c.recent_memories@.len() == 0),
    {
        let missing = match &settings.api_key {
            Some(key) => blank(key.as_str()),
            None => true,
        };
        if missing {
            return Err(AppError::Config(String::from_str("请先在设置页面配置 API Key")));
        }
        match settings.validate_public_fields() {
            Err(m) => Err(AppError::Config(m)),
            Ok(()) => Ok(LlmClient { settings, recent_memories: Vec::new() }),
        }
    }

    /// Attach the memory lines to inject into the system prompt.
    pub fn with_recent_memories(self, memories: Vec<String>) -> (r: LlmClient)
        ensures
            r.settings == self.settings,
            r.recent_memories == memories,
    {
        LlmClient { settings: self.settings, recent_memories: memories }
    }

    /// The model name requests are sent for.
    pub fn model(&self) -> (m: &str)
        ensures
            m@ == self.settings.model@,
    {
        self.settings.model.as_str()
    }

    /// The endpoint URL: the normalized base URL followed by `/chat/completions`.
    pub fn chat_completions_url(&self) -> (u: String)
        ensures
            u@ == normalized_url(self.settings.base_url@) + "/chat/completions"@,
    {
        let url = chars_of(self.settings.base_url.as_str());
        let url = strip_trailing_chars(&trim_chars(&url), '/');
        let mut u = string_from(url.as_slice());
        u.append("/chat/completions");
        u
    }

    /// The system message content for this client.
    pub fn system_message_content(&self) -> (c: String)
        ensures
            c@ == system_content(
                self.settings.system_prompt@,
                memories_view(self.recent_memories@),
            ),
    {
        let mut c = self.settings.system_prompt.clone();
        if self.recent_memories.len() == 0 {
            return c;
        }
        c.append("\n\n# 长期记忆（跨会话，持续生效）\n");
        let ghost base = c@;
        let ghost mems = memories_view(self.recent_memories@);
        let mut i: usize = 0;
        while i < self.recent_memories.len()
            invariant
                i <= self.recent_memories.len(),
                mems == memories_view(self.recent_memories@),
                mems.len() == self.recent_memories@.len(),
                c@ == base + join_lines(mems.subrange(0, i as int)),
            decreases self.recent_memories.len() - i,
        {
            let ghost before = c@;
            if i > 0 {
                c.append("\n");
            }
            c.append(self.recent_memories[i].as_str());
            proof {
                let s = mems.subrange(0, i + 1);
                assert(s.drop_last() =~= mems.subrange(0, i as int));
                assert(s.last() == self.recent_memories@[i as int]@);
                if i == 0 {
                    assert(mems.subrange(0, 0) =~= Seq::<Seq<char>>::empty());
                    assert(c@ =~= base + join_lines(s));
                } else {
                    assert(c@ =~= base + join_lines(s));
                }
            }
            i = i + 1;
        }
        assert(mems.subrange(0, self.recent_memories.len() as int) =~= mems);
        c
    }

    /// The request messages: the system message, then the last
    /// `max_context_messages` UI messages with their roles mapped.
    pub fn build_messages(&self, ui_messages: &[ChatUiMessage]) -> (r: Vec<OpenAiMessage>)
        ensures
            r.len() == 1 + kept(self.settings.max_context_messages, ui_messages@.len() as int),
            r@[0].role@ == "system"@,
            opt_chars(r@[0].content) == Some(
                system_content(
                    self.settings.system_prompt@,
                    memories_view(self.recent_memories@),
                ),
            ),
            r@[0].tool_call_id is None,
            r@[0].tool_calls is None,
            forall|i: int|
                #![trigger r@[i]]
                1 <= i < r.len() ==> {
                    let src = ui_messages@[ui_messages@.len() - r.len() + i];
                    &&& r@[i].role@ == provider_role(src.role@)
                    &&& opt_chars(r@[i].content) == Some(src.content@)
                    &&& r@[i].tool_call_id is None
                    &&& r@[i].tool_calls is None
                },
    {
        let mut messages: Vec<OpenAiMessage> = Vec::new();
        messages.push(
            OpenAiMessage {
                role: String::from_str("system"),
                content: Some(self.system_message_content()),
                tool_call_id: None,
                tool_calls: None,
            },
        );
        let n = ui_messages.len();
        let keep = if self.settings.max_context_messages < n {
            self.settings.max_context_messages
        } else {
            n
        };
        let start = n - keep;
        let mut i = start;
        while i < n
            invariant
                start <= i <= n,
                n == ui_messages@.len(),
                start == n - keep,
                keep == kept(self.settings.max_context_messages, n as int),
                messages.len() == 1 + (i - start),
                messages@[0].role@ == "system"@,
                opt_chars(messages@[0].content) == Some(
                    system_content(
                        self.settings.system_prompt@,
                        memories_view(self.recent_memories@),
                    ),
                ),
                messages@[0].tool_call_id is None,
                messages@[0].tool_calls is None,
                forall|k: int|
                    #![trigger messages@[k]]
                    1 <= k < messages.len() ==> {
                        let src = ui_messages@[start + k - 1];
                        &&& messages@[k].role@ == provider_role(src.role@)
                        &&& opt_chars(messages@[k].content) == Some(src.content@)
                        &&& messages@[k].tool_call_id is None
                        &&& messages@[k].tool_calls is None
                    },
            decreases n - i,
        {
            let message = &ui_messages[i];
            let role = if str_eq(message.role.as_str(), "assistant") {
                String::from_str("assistant")
            } else if str_eq(message.role.as_str(), "system") {
                String::from_str("system")
            } else {
                String::from_str("user")
            };
            messages.push(
                OpenAiMessage {
                    role,
                    content: Some(message.content.clone()),
                    tool_call_id: None,
                    tool_calls: None,
                },
            );
            i = i + 1;
        }
        messages
    }
}

/// The first candidate of a non-streaming completion.
#[derive(Debug)]
pub struct ReplyMessage {
    pub content: Option<String>,
    pub tool_calls: Option<Vec<ToolCall>>,
    /// Reasoning text, when the provider returns one.
    pub reasoning_content: Option<String>,
}

/// A non-streaming completion: its first candidate (if any) and the usage.
#[derive(Debug)]
pub struct ModelReply {
    pub first_choice: Option<ReplyMessage>,
    pub usage: Option<TokenUsage>,
}

/// What the host has to do next in a tool-enabled chat turn.
#[derive(Debug)]
pub enum LoopStep {
    /// Send the conversation, with the active tool definitions when
    /// `allow_tools` holds and with `tool_choice = "auto"`.
    Request { allow_tools: bool },
    /// Dispatch these calls in order and report each outcome.
    RunTools(Vec<ToolCall>),
    /// The turn converged on this reply.
    Finished(ChatTurnResult),
    /// The turn failed.
    Failed(AppError),
}

/// State of a chat turn that may call tools over several rounds.
#[derive(Debug)]
pub struct ToolLoop {
    pub messages: Vec<OpenAiMessage>,
    pub has_tools: bool,
    /// Number of completed tool rounds.
    pub round: usize,
    pub usage: TokenUsage,
    pub tool_call_count: usize,
    pub reasoning: String,
    /// The calls whose outcomes are awaited.
    pub awaiting: Vec<ToolCall>,
}

/// Whether the request of round `round` may offer tools: only when tools are
/// active and it is not the last allowed round.
pub open spec fn tools_allowed(has_tools: bool, round: int) -> bool {
    has_tools && round + 1 < MAX_TOOL_ROUNDS
}

/// A turn allows six rounds, and tools are offered in every round of a turn
/// with active tools except the last one allowed, which must answer in text;
/// a turn without tools never offers them.
pub proof fn lemma_only_last_round_withholds_tools(has_tools: bool, round: int)
    requires
        0 <= round < MAX_TOOL_ROUNDS,
    ensures
        MAX_TOOL_ROUNDS == 6,
        tools_allowed(has_tools, round) <==> (has_tools && round != MAX_TOOL_ROUNDS - 1),
        round < MAX_TOOL_ROUNDS - 1 ==> tools_allowed(true, round),
        !tools_allowed(true, MAX_TOOL_ROUNDS - 1),
        !tools_allowed(false, round),
{
}

pub open spec fn no_candidate_message() -> Seq<char> {
    "模型没有返回候选结果"@
}

pub open spec fn not_converged_message() -> Seq<char> {
    "工具调用未在 6 轮内收敛"@
}

/// The tool calls a reply asks for (none when the list is absent).
pub open spec fn requested_calls(m: ReplyMessage) -> Seq<ToolCall> {
    match m.tool_calls {
        Some(c) => c@,
        None => Seq::empty(),
    }
}

pub open spec fn text_or_empty(o: Option<String>) -> Seq<char> {
    match o {
        Some(s) => s@,
        None => Seq::empty(),
    }
}

/// A lower-case hex digit for a value below 16.
pub open spec fn lower_hex_digit(d: int) -> char {
    if d < 10 {
        (('0' as int) + d) as char
    } else {
        (('a' as int) + d - 10) as char
    }
}

/// How `serde_json` writes one character inside a string literal: `"` and
/// `\` escaped with a backslash; backspace, form feed, line feed, carriage
/// return and tab by their short escapes; other characters below U+0020 as
/// `\u00` and two lower-case hex digits; every other character as itself.
pub open spec fn json_escaped_char(c: char) -> Seq<char> {
    if c == '"' {
        seq!['\\', '"']
    } else if c == '\\' {
        seq!['\\', '\\']
    } else if c == '\x08' {
        seq!['\\', 'b']
    } else if c == '\x0C' {
        seq!['\\', 'f']
    } else if c == '\n' {
        seq!['\\', 'n']
    } else if c == '\r' {
        seq!['\\', 'r']
    } else if c == '\t' {
        seq!['\\', 't']
    } else if (c as u32) < 0x20 {
        seq![
            '\\',
            'u',
            '0',
            '0',
            lower_hex_digit((c as u32 / 16) as int),
            lower_hex_digit((c as u32 % 16) as int),
        ]
    } else {
        seq![c]
    }
}

/// The escaped characters of `s`, in order.
pub open spec fn json_escaped(s: Seq<char>) -> Seq<char>
    decreases s.len(),
{
    if s.len() == 0 {
        Seq::empty()
    } else {
        json_escaped(s.drop_last()) + json_escaped_char(s.last())
    }
}

/// JSON string literal for `s` as `serde_json` writes it: the escaped
/// characters between double quotes.
pub open spec fn json_quoted(s: Seq<char>) -> Seq<char> {
    seq!['"'] + json_escaped(s) + seq!['"']
}

/// `serde_json`'s compact rendering of a JSON string value (`Display` of
/// `Value::String`, which writes the string through `format_escaped_str`).
#[verifier::external_body]
fn json_quote(s: &str) -> (r: String)
    ensures
        r@ == json_quoted(s@),
{
    serde_json::Value::String(s.to_string()).to_string()
}

/// The tool output a failed call is reported to the model as: `{"error": msg}`.
pub open spec fn error_payload(msg: Seq<char>) -> Seq<char> {
    "{\"error\":"@ + json_quoted(msg) + "}"@
}

/// The JSON object `{"error": msg}`, so the model can adapt to a failed tool.
pub fn tool_error_payload(msg: &str) -> (r: String)
    ensures
        r@ == error_payload(msg@),
{
    let mut r = String::from_str("{\"error\":");
    let q = json_quote(msg);
    r.append(q.as_str());
    r.append("}");
    r
}

/// What the model sees for one tool outcome.
pub open spec fn outcome_text(o: Result<String, String>) -> Seq<char> {
    match o {
        Ok(s) => s@,
        Err(e) => error_payload(e@),
    }
}

/// The assistant message that records a request for tool calls.
pub open spec fn is_call_message(m: OpenAiMessage, content: Option<String>, calls: Seq<ToolCall>) -> bool {
    &&& m.role@ == "assistant"@
    &&& m.content == content
    &&& m.tool_call_id is None
    &&& m.tool_calls matches Some(c) && c@ == calls
}

/// The tool message that reports the outcome of call `call`.
pub open spec fn is_result_message(m: OpenAiMessage, call: ToolCall, outcome: Result<String, String>) -> bool {
    &&& m.role@ == "tool"@
    &&& opt_chars(m.content) == Some(outcome_text(outcome))
    &&& m.tool_call_id == Some(call.id)
    &&& m.tool_calls is None
}

impl ToolLoop {
    /// Start a turn on the prepared messages; the first step is a request.
    pub fn start(messages: Vec<OpenAiMessage>, has_tools: bool) -> (r: (ToolLoop, LoopStep))
        ensures
            r.0.messages == messages,
            r.0.has_tools == has_tools,
            r.0.round == 0,
            r.0.usage == (TokenUsage { prompt_tokens: 0, completion_tokens: 0, total_tokens: 0 }),
            r.0.tool_call_count == 0,
            r.0.reasoning@.len() == 0,
            r.0.awaiting@.len() == 0,
            r.1 == (LoopStep::Request { allow_tools: tools_allowed(has_tools, 0) }),
    {
        let lp = ToolLoop {
            messages,
            has_tools,
            round: 0,
            usage: TokenUsage::zero(),
            tool_call_count: 0,
            reasoning: String::new(),
            awaiting: Vec::new(),
        };
        let allow_tools = has_tools && 1 < MAX_TOOL_ROUNDS;
        (lp, LoopStep::Request { allow_tools })
    }

    /// Absorb the reply to the last request.
    pub fn on_reply(&mut self, reply: ModelReply) -> (step: LoopStep)
        requires
            old(self).round < MAX_TOOL_ROUNDS,
            usage_absorbable(old(self).usage, reply.usage),
            reply.first_choice matches Some(m) ==> old(self).tool_call_count + requested_calls(
                m,
            ).len() <= usize::MAX,
        ensures
            final(self).usage == usage_plus(old(self).usage, reply.usage),
            final(self).round == old(self).round,
            final(self).has_tools == old(self).has_tools,
            reply.first_choice is None ==> (step matches LoopStep::Failed(AppError::Model(e)) && e@
                == no_candidate_message()),
            reply.first_choice matches Some(m) ==> {
                let reasoning = old(self).reasoning@ + text_or_empty(m.reasoning_content);
                if requested_calls(m).len() == 0 {
                    step matches LoopStep::Finished(res) && res.text@ == text_or_empty(m.content)
                        && res.usage == final(self).usage && res.tool_call_count == old(
                        self,
                    ).tool_call_count && res.reasoning@ == reasoning
                } else {
                    &&& step matches LoopStep::RunTools(calls) && calls@ == requested_calls(m)
                    &&& final(self).awaiting@ == requested_calls(m)
                    &&& final(self).tool_call_count == old(self).tool_call_count
                        + requested_calls(m).len()
                    &&& final(self).reasoning@ == reasoning
                    &&& final(self).messages@.len() == old(self).messages@.len() + 1
                    &&& final(self).messages@.drop_last() == old(self).messages@
                    &&& is_call_message(
                        final(self).messages@.last(),
                        m.content,
                        requested_calls(m),
                    )
                }
            },
    {
        self.usage.add(reply.usage.as_ref());
        let m = match reply.first_choice {
            None => {
                return LoopStep::Failed(AppError::Model(String::from_str("模型没有返回候选结果")));
            },
            Some(m) => m,
        };
        if let Some(r) = &m.reasoning_content {
            self.reasoning.append(r.as_str());
        }
        let calls = match m.tool_calls {
            Some(c) => c,
            None => Vec::new(),
        };
        if calls.len() == 0 {
            let text = match m.content {
                Some(t) => t,
                None => String::new(),
            };
            let reasoning = self.reasoning.clone();
            return LoopStep::Finished(
                ChatTurnResult {
                    text,
                    usage: self.usage,
                    tool_call_count: self.tool_call_count,
                    reasoning,
                },
            );
        }
        self.tool_call_count = self.tool_call_count + calls.len();
        let recorded = duplicate_calls(&calls);
        self.messages.push(
            OpenAiMessage {
                role: String::from_str("assistant"),
                content: m.content,
                tool_call_id: None,
                tool_calls: Some(recorded),
            },
        );
        self.awaiting = duplicate_calls(&calls);
        LoopStep::RunTools(calls)
    }

    /// Record the outcome of each awaited call (in order) and move to the
    /// next round.
    pub fn on_tool_results(&mut self, outcomes: Vec<Result<String, String>>) -> (step: LoopStep)
        requires
            outcomes@.len() == old(self).awaiting@.len(),
            old(self).round < MAX_TOOL_ROUNDS,
        ensures
            final(self).round == old(self).round + 1,
            final(self).has_tools == old(self).has_tools,
            final(self).usage == old(self).usage,
            final(self).tool_call_count == old(self).tool_call_count,
            final(self).reasoning == old(self).reasoning,
            final(self).awaiting@.len() == 0,
            final(self).messages@.len() == old(self).messages@.len() + outcomes@.len(),
            final(self).messages@.subrange(0, old(self).messages@.len() as int)
                == old(self).messages@,
            forall|i: int|
                0 <= i < outcomes@.len() ==> is_result_message(
                    #[trigger] final(self).messages@[old(self).messages@.len() + i],
                    old(self).awaiting@[i],
                    outcomes@[i],
                ),
            final(self).round < MAX_TOOL_ROUNDS ==> step == (LoopStep::Request {
                allow_tools: tools_allowed(final(self).has_tools, final(self).round as int),
            }),
            final(self).round >= MAX_TOOL_ROUNDS ==> (step matches LoopStep::Failed(
                AppError::Model(e),
            ) && e@ == not_converged_message()),
    {
        let ghost old_messages = self.messages@;
        let mut i: usize = 0;
        while i < outcomes.len()
            invariant
                i <= outcomes@.len(),
                outcomes@.len() == self.awaiting@.len(),
                self.awaiting == old(self).awaiting,
                self.round == old(self).round,
                self.round < MAX_TOOL_ROUNDS,
                self.has_tools == old(self).has_tools,
                self.usage == old(self).usage,
                self.tool_call_count == old(self).tool_call_count,
                self.reasoning == old(self).reasoning,
                self.messages@.len() == old_messages.len() + i,
                self.messages@.subrange(0, old_messages.len() as int) == old_messages,
                forall|k: int|
                    0 <= k < i ==> is_result_message(
                        #[trigger] self.messages@[old_messages.len() + k],
                        self.awaiting@[k],
                        outcomes@[k],
                    ),
            decreases outcomes@.len() - i,
        {
            let content = match &outcomes[i] {
                Ok(json) => json.clone(),
                Err(err) => tool_error_payload(err.as_str()),
            };
            let ghost before = self.messages@;
            self.messages.push(
                OpenAiMessage {
                    role: String::from_str("tool"),
                    content: Some(content),
                    tool_call_id: Some(self.awaiting[i].id.clone()),
                    tool_calls: None,
                },
            );
            proof {
                assert(self.messages@.subrange(0, old_messages.len() as int) =~= before.subrange(
                    0,
                    old_messages.len() as int,
                ));
                assert forall|k: int| 0 <= k < i + 1 implies is_result_message(
                    #[trigger] self.messages@[old_messages.len() + k],
                    self.awaiting@[k],
                    outcomes@[k],
                ) by {
                    if k < i {
                        assert(self.messages@[old_messages.len() + k] == before[old_messages.len()
                            + k]);
                    }
                }
            }
            i = i + 1;
        }
        self.awaiting = Vec::new();
        self.round = self.round + 1;
        if self.round < MAX_TOOL_ROUNDS {
            LoopStep::Request { allow_tools: self.has_tools && self.round + 1 < MAX_TOOL_ROUNDS }
        } else {
            LoopStep::Failed(AppError::Model(String::from_str("工具调用未在 6 轮内收敛")))
        }
    }
}

/// One item of a server-sent event stream that the chat logic acts on.
#[derive(Debug)]
pub enum SseItem {
    /// The payload of a `data:` line (trimmed, non-empty, not `[DONE]`).
    Data(String),
    /// The `data: [DONE]` terminator.
    Done,
}

/// Items viewed as `Some(payload)` for data and `None` for the terminator.
pub open spec fn item_view(i: SseItem) -> Option<Seq<char>> {
    match i {
        SseItem::Data(d) => Some(d@),
        SseItem::Done => None,
    }
}

pub open spec fn items_view(v: Seq<SseItem>) -> Seq<Option<Seq<char>>> {
    v.map_values(|i: SseItem| item_view(i))
}

/// A line with one trailing carriage return removed, as `str::lines` yields it.
pub open spec fn without_cr(line: Seq<char>) -> Seq<char> {
    if line.len() > 0 && line.last() == '\r' {
        line.drop_last()
    } else {
        line
    }
}

/// The item a line of an event carries: lines that do not start with `data:`
/// and blank payloads carry none.
pub open spec fn line_item(raw: Seq<char>) -> Seq<Option<Seq<char>>> {
    let line = without_cr(raw);
    if crate::text::starts_with(line, "data:"@) {
        let d = crate::text::trim(line.subrange(5, line.len() as int));
        if d == "[DONE]"@ {
            seq![None]
        } else if d.len() == 0 {
            Seq::empty()
        } else {
            seq![Some(d)]
        }
    } else {
        Seq::empty()
    }
}

/// Items of the lines of `ev` from the line starting at `start`, scanning at `i`.
pub open spec fn line_items_from(ev: Seq<char>, start: int, i: int) -> Seq<Option<Seq<char>>>
    decreases ev.len() - i,
{
    if i >= ev.len() || i < start || start < 0 {
        if 0 <= start < ev.len() {
            line_item(ev.subrange(start, ev.len() as int))
        } else {
            Seq::empty()
        }
    } else if ev[i] == '\n' {
        line_item(ev.subrange(start, i)) + line_items_from(ev, i + 1, i + 1)
    } else {
        line_items_from(ev, start, i + 1)
    }
}

/// Items of the lines of one event, in order.
pub open spec fn event_items(ev: Seq<char>) -> Seq<Option<Seq<char>>> {
    line_items_from(ev, 0, 0)
}

/// The complete events of `s` (separated by a blank line) from the event
/// starting at `start`, scanning at `i`, and what is left after the last one.
pub open spec fn split_events(s: Seq<char>, start: int, i: int) -> (Seq<Seq<char>>, Seq<char>)
    decreases s.len() - i,
{
    if i + 1 >= s.len() || i < start || start < 0 {
        (Seq::empty(), s.subrange(start, s.len() as int))
    } else if s[i] == '\n' && s[i + 1] == '\n' {
        let rest = split_events(s, i + 2, i + 2);
        (seq![s.subrange(start, i)] + rest.0, rest.1)
    } else {
        split_events(s, start, i + 1)
    }
}

/// All items of a list of events, in order.
pub open spec fn all_items(evs: Seq<Seq<char>>) -> Seq<Option<Seq<char>>>
    decreases evs.len(),
{
    if evs.len() == 0 {
        Seq::empty()
    } else {
        all_items(evs.drop_last()) + event_items(evs.last())
    }
}

/// Whether the terminator occurs among the items.
pub open spec fn has_done(t: Seq<Option<Seq<char>>>) -> bool {
    exists|k: int| 0 <= k < t.len() && t[k] is None
}

/// The items up to and including the first terminator (all of them if none).
pub open spec fn until_done(t: Seq<Option<Seq<char>>>) -> Seq<Option<Seq<char>>>
    decreases t.len(),
{
    if t.len() == 0 {
        t
    } else if t[0] is None {
        seq![None]
    } else {
        seq![t[0]] + until_done(t.drop_first())
    }
}

proof fn lemma_until_done_append(a: Seq<Option<Seq<char>>>, b: Seq<Option<Seq<char>>>)
    requires
        !has_done(a),
    ensures
        until_done(a + b) == a + until_done(b),
    decreases a.len(),
{
    if a.len() == 0 {
        assert(a + b =~= b);
        assert(a + until_done(b) =~= until_done(b));
    } else {
        assert((a + b)[0] == a[0]);
        assert((a + b).drop_first() =~= a.drop_first() + b);
        assert(!has_done(a.drop_first())) by {
            if has_done(a.drop_first()) {
                let k = choose|k: int| 0 <= k < a.drop_first().len() && a.drop_first()[k] is None;
                assert(a[k + 1] is None);
            }
        }
        lemma_until_done_append(a.drop_first(), b);
        assert(seq![a[0]] + (a.drop_first() + until_done(b)) =~= a + until_done(b));
    }
}

proof fn lemma_until_done_cut(a: Seq<Option<Seq<char>>>, b: Seq<Option<Seq<char>>>)
    requires
        has_done(a),
    ensures
        until_done(a + b) == until_done(a),
    decreases a.len(),
{
    assert((a + b)[0] == a[0]);
    if a[0] is None {
    } else {
        assert((a + b).drop_first() =~= a.drop_first() + b);
        assert(has_done(a.drop_first())) by {
            let k = choose|k: int| 0 <= k < a.len() && a[k] is None;
            assert(a.drop_first()[k - 1] is None);
        }
        lemma_until_done_cut(a.drop_first(), b);
    }
}

proof fn lemma_until_done_plain(a: Seq<Option<Seq<char>>>)
    requires
        !has_done(a),
    ensures
        until_done(a) == a,
{
    lemma_until_done_append(a, Seq::empty());
    assert(a + Seq::<Option<Seq<char>>>::empty() =~= a);
    assert(a + Seq::<Option<Seq<char>>>::empty() =~= a);
}

proof fn lemma_all_items_append(a: Seq<Seq<char>>, b: Seq<Seq<char>>)
    ensures
        all_items(a + b) == all_items(a) + all_items(b),
    decreases b.len(),
{
    if b.len() == 0 {
        assert(a + b =~= a);
        assert(all_items(a) + all_items(b) =~= all_items(a));
    } else {
        assert((a + b).drop_last() =~= a + b.drop_last());
        assert((a + b).last() == b.last());
        lemma_all_items_append(a, b.drop_last());
        assert(all_items(a) + all_items(b.drop_last()) + event_items(b.last()) =~= all_items(a)
            + (all_items(b.drop_last()) + event_items(b.last())));
    }
}

/// What one line of an event carries.
fn line_item_exec(v: &Vec<char>, start: usize, end: usize) -> (r: Vec<SseItem>)
    requires
        start <= end <= v.len(),
    ensures
        items_view(r@) == line_item(v@.subrange(start as int, end as int)),
{
    let ghost raw = v@.subrange(start as int, end as int);
    let mut e = end;
    if e > start && v[e - 1] == '\r' {
        e = e - 1;
    }
    let line = crate::text::slice_chars(v, start, e);
    proof {
        assert(line@ =~= without_cr(raw));
    }
    let prefix = chars_of("data:");
    proof {
        reveal_strlit("data:");
    }
    if !crate::text::starts_with_chars(&line, &prefix) {
        return Vec::new();
    }
    let rest = crate::text::slice_chars(&line, 5, line.len());
    let d = trim_chars(&rest);
    let done_lit = chars_of("[DONE]");
    let mut r: Vec<SseItem> = Vec::new();
    if crate::text::chars_eq(&d, &done_lit) {
        r.push(SseItem::Done);
        assert(items_view(r@) =~= seq![None]);
    } else if d.len() == 0 {
        assert(items_view(r@) =~= Seq::<Option<Seq<char>>>::empty());
    } else {
        r.push(SseItem::Data(string_from(d.as_slice())));
        assert(items_view(r@) =~= seq![Some(d@)]);
    }
    r
}

/// The items of the event `v[start..end]`, in order.
fn event_items_exec(v: &Vec<char>, start: usize, end: usize) -> (r: Vec<SseItem>)
    requires
        start <= end <= v.len(),
    ensures
        items_view(r@) == event_items(v@.subrange(start as int, end as int)),
{
    let ev = crate::text::slice_chars(v, start, end);
    let mut r: Vec<SseItem> = Vec::new();
    let mut line_start: usize = 0;
    let mut i: usize = 0;
    while i < ev.len()
        invariant
            line_start <= i <= ev.len(),
            ev@ == v@.subrange(start as int, end as int),
            items_view(r@) + line_items_from(ev@, line_start as int, i as int) == event_items(
                ev@,
            ),
        decreases ev.len() - i,
    {
        if ev[i] == '\n' {
            let items = line_item_exec(&ev, line_start, i);
            let ghost before = r@;
            let mut k: usize = 0;
            while k < items.len()
                invariant
                    k <= items.len(),
                    r@ == before + items@.subrange(0, k as int),
                decreases items.len() - k,
            {
                r.push(match &items[k] {
                    SseItem::Data(d) => SseItem::Data(d.clone()),
                    SseItem::Done => SseItem::Done,
                });
                k = k + 1;
                assert(r@ =~= before + items@.subrange(0, k as int)) by {
                    assert(r@.last() == items@[k - 1]);
                }
            }
            proof {
                assert(items@.subrange(0, items.len() as int) =~= items@);
                assert(items_view(r@) =~= items_view(before) + items_view(items@));
                assert(items_view(before) + items_view(items@) + line_items_from(
                    ev@,
                    i + 1,
                    i + 1,
                ) =~= items_view(before) + (items_view(items@) + line_items_from(
                    ev@,
                    i + 1,
                    i + 1,
                )));
            }
            line_start = i + 1;
        }
        i = i + 1;
    }
    if line_start < ev.len() {
        let items = line_item_exec(&ev, line_start, ev.len());
        let ghost before = r@;
        let mut k: usize = 0;
        while k < items.len()
            invariant
                k <= items.len(),
                r@ == before + items@.subrange(0, k as int),
            decreases items.len() - k,
        {
            r.push(match &items[k] {
                SseItem::Data(d) => SseItem::Data(d.clone()),
                SseItem::Done => SseItem::Done,
            });
            k = k + 1;
            assert(r@ =~= before + items@.subrange(0, k as int)) by {
                assert(r@.last() == items@[k - 1]);
            }
        }
        proof {
            assert(items@.subrange(0, items.len() as int) =~= items@);
            assert(items_view(r@) =~= items_view(before) + items_view(items@));
        }
    } else {
        assert(items_view(r@) =~= items_view(r@) + Seq::<Option<Seq<char>>>::empty());
    }
    r
}

proof fn lemma_all_items_single(ev: Seq<char>)
    ensures
        all_items(seq![ev]) == event_items(ev),
{
    assert(seq![ev].drop_last() =~= Seq::<Seq<char>>::empty());
    assert(all_items(Seq::<Seq<char>>::empty()) =~= Seq::<Option<Seq<char>>>::empty());
    assert(Seq::<Option<Seq<char>>>::empty() + event_items(ev) =~= event_items(ev));
}

proof fn lemma_has_done_append(a: Seq<Option<Seq<char>>>, b: Seq<Option<Seq<char>>>)
    ensures
        has_done(a + b) == (has_done(a) || has_done(b)),
{
    if has_done(a) {
        let k = choose|k: int| 0 <= k < a.len() && a[k] is None;
        assert((a + b)[k] is None);
    }
    if has_done(b) {
        let k = choose|k: int| 0 <= k < b.len() && b[k] is None;
        assert((a + b)[a.len() + k] is None);
    }
    if has_done(a + b) {
        let k = choose|k: int| 0 <= k < (a + b).len() && (a + b)[k] is None;
        if k < a.len() {
            assert(a[k] is None);
        } else {
            assert(b[k - a.len()] is None);
        }
    }
}

/// Whether an event separator (a blank line) starts at position `j` of `s`.
pub open spec fn separator_at(s: Seq<char>, j: int) -> bool {
    j + 1 < s.len() && s[j] == '\n' && s[j + 1] == '\n'
}

proof fn lemma_split_shift(s: Seq<char>, start: int, i: int)
    requires
        0 <= start <= i,
        start <= s.len(),
    ensures
        split_events(s, start, i) == split_events(s.subrange(start, s.len() as int), 0, i - start),
    decreases s.len() - i,
{
    let t = s.subrange(start, s.len() as int);
    if i + 1 >= s.len() {
        assert(t.subrange(0, t.len() as int) =~= t);
    } else {
        assert(t[i - start] == s[i] && t[i - start + 1] == s[i + 1]);
        if s[i] == '\n' && s[i + 1] == '\n' {
            lemma_split_shift(s, i + 2, i + 2);
            lemma_split_shift(t, i - start + 2, i - start + 2);
            assert(t.subrange(i - start + 2, t.len() as int) =~= s.subrange(i + 2, s.len() as int));
            assert(t.subrange(0, i - start) =~= s.subrange(start, i));
        } else {
            lemma_split_shift(s, start, i + 1);
        }
    }
}

proof fn lemma_split_skip(s: Seq<char>, start: int, a: int, b: int)
    requires
        0 <= start <= a <= b <= s.len(),
        forall|j: int| a <= j < b ==> !#[trigger] separator_at(s, j),
    ensures
        split_events(s, start, a) == split_events(s, start, b),
    decreases b - a,
{
    if a < b {
        if a + 1 >= s.len() {
        } else {
            assert(!separator_at(s, a));
            lemma_split_skip(s, start, a + 1, b);
        }
    }
}

proof fn lemma_split_concat(x: Seq<char>, y: Seq<char>, start: int, i: int)
    requires
        0 <= start <= i <= x.len(),
        i < x.len() || i == start,
        forall|j: int| start <= j < i ==> !#[trigger] separator_at(x, j),
    ensures
        split_events(x + y, start, i).0 == split_events(x, start, i).0 + split_events(
            split_events(x, start, i).1 + y,
            0,
            0,
        ).0,
        split_events(x + y, start, i).1 == split_events(split_events(x, start, i).1 + y, 0, 0).1,
    decreases x.len() - i,
{
    let s = x + y;
    if i + 1 >= x.len() {
        let l = x.subrange(start, x.len() as int);
        let ly = l + y;
        assert(s.subrange(start, s.len() as int) =~= ly);
        lemma_split_shift(s, start, i);
        assert forall|j: int| 0 <= j < i - start implies !#[trigger] separator_at(ly, j) by {
            assert(separator_at(ly, j) ==> separator_at(x, j + start)) by {
                if separator_at(ly, j) {
                    assert(ly[j] == x[j + start]);
                    assert(ly[j + 1] == x[j + start + 1]);
                }
            }
            assert(!separator_at(x, j + start));
        }
        lemma_split_skip(ly, 0, 0, i - start);
        assert(split_events(x, start, i).0 =~= Seq::<Seq<char>>::empty());
        assert(Seq::<Seq<char>>::empty() + split_events(ly, 0, 0).0 =~= split_events(ly, 0, 0).0);
    } else {
        assert(s[i] == x[i] && s[i + 1] == x[i + 1]);
        if x[i] == '\n' && x[i + 1] == '\n' {
            lemma_split_concat(x, y, i + 2, i + 2);
            assert(s.subrange(start, i) =~= x.subrange(start, i));
            let rx = split_events(x, i + 2, i + 2);
            let tail = split_events(rx.1 + y, 0, 0);
            assert(seq![x.subrange(start, i)] + (rx.0 + tail.0) =~= (seq![x.subrange(start, i)]
                + rx.0) + tail.0);
        } else {
            assert(!separator_at(x, i));
            lemma_split_concat(x, y, start, i + 1);
        }
    }
}

/// Cutting a stream into chunks does not change what it decodes to: the
/// complete events of `x + y` are the complete events of `x`, then those of
/// what `x` left incomplete followed by `y`; and what is left incomplete at
/// the end is the same either way.
pub proof fn lemma_events_split_anywhere(x: Seq<char>, y: Seq<char>)
    ensures
        split_events(x + y, 0, 0).0 == split_events(x, 0, 0).0 + split_events(
            split_events(x, 0, 0).1 + y,
            0,
            0,
        ).0,
        split_events(x + y, 0, 0).1 == split_events(split_events(x, 0, 0).1 + y, 0, 0).1,
{
    lemma_split_concat(x, y, 0, 0);
}

/// Feeding the decoder `x` and then `y` hands out the same items as feeding
/// it `x + y` at once, provided the first feed did not already end the
/// stream: what the first feed returns, followed by what the second returns,
/// is what the single feed returns.
pub proof fn lemma_two_feeds_as_one(buffer: Seq<char>, x: Seq<char>, y: Seq<char>)
    requires
        !has_done(all_items(split_events(buffer + x, 0, 0).0)),
    ensures
        until_done(all_items(split_events(buffer + x, 0, 0).0)) + until_done(
            all_items(split_events(split_events(buffer + x, 0, 0).1 + y, 0, 0).0),
        ) == until_done(all_items(split_events(buffer + (x + y), 0, 0).0)),
{
    let first = split_events(buffer + x, 0, 0);
    let second = split_events(first.1 + y, 0, 0);
    assert(buffer + (x + y) =~= (buffer + x) + y);
    lemma_events_split_anywhere(buffer + x, y);
    lemma_all_items_append(first.0, second.0);
    lemma_until_done_append(all_items(first.0), all_items(second.0));
    lemma_until_done_plain(all_items(first.0));
}

/// How the items of the events seen so far, one more event and the rest of
/// the stream combine.
proof fn lemma_feed_step(
    processed: Seq<Seq<char>>,
    ev: Seq<char>,
    rest: Seq<Seq<char>>,
)
    requires
        !has_done(all_items(processed)),
    ensures
        all_items(processed + seq![ev]) == all_items(processed) + event_items(ev),
        all_items((processed + seq![ev]) + rest) == all_items(processed) + event_items(ev)
            + all_items(rest),
        has_done(event_items(ev)) ==> has_done(all_items((processed + seq![ev]) + rest)),
        has_done(event_items(ev)) ==> until_done(all_items((processed + seq![ev]) + rest))
            == all_items(processed) + until_done(event_items(ev)),
        !has_done(event_items(ev)) ==> !has_done(all_items(processed + seq![ev])),
{
    lemma_all_items_append(processed, seq![ev]);
    lemma_all_items_single(ev);
    lemma_all_items_append(processed + seq![ev], rest);
    let a = all_items(processed);
    let e = event_items(ev);
    let r = all_items(rest);
    lemma_has_done_append(a, e);
    lemma_has_done_append(a + e, r);
    if has_done(e) {
        lemma_until_done_cut(a + e, r);
        lemma_until_done_append(a, e);
    }
}

/// Append the items of `items` to `out` up to and including the first
/// terminator; tell whether there was one.
fn push_until_done(out: &mut Vec<SseItem>, items: &Vec<SseItem>) -> (hit: bool)
    ensures
        items_view(final(out)@) == items_view(old(out)@) + until_done(items_view(items@)),
        hit == has_done(items_view(items@)),
{
    let ghost before = old(out)@;
    let ghost all = items_view(items@);
    let mut k: usize = 0;
    let mut hit = false;
    while k < items.len() && !hit
        invariant
            k <= items.len(),
            all == items_view(items@),
            hit ==> items_view(out@) == items_view(before) + until_done(all) && has_done(all),
            !hit ==> items_view(out@) == items_view(before) + items_view(
                items@.subrange(0, k as int),
            ) && !has_done(items_view(items@.subrange(0, k as int))),
        decreases items.len() - k + (if hit { 0int } else { 1int }),
    {
        let ghost pre = items_view(items@.subrange(0, k as int));
        let ghost tail = all.subrange(k as int, all.len() as int);
        assert(all =~= pre + tail);
        let is_done = match &items[k] {
            SseItem::Done => true,
            SseItem::Data(_) => false,
        };
        let item = match &items[k] {
            SseItem::Data(d) => SseItem::Data(d.clone()),
            SseItem::Done => SseItem::Done,
        };
        assert(item_view(item) == all[k as int]);
        let ghost out_before = out@;
        out.push(item);
        proof {
            assert(out@ == out_before.push(item));
            assert(items_view(out@) =~= items_view(out_before) + seq![item_view(item)]);
            assert(items_view(items@.subrange(0, k + 1)) =~= pre + seq![all[k as int]]);
            assert(items_view(out@) =~= items_view(before) + items_view(
                items@.subrange(0, k + 1),
            ));
        }
        if is_done {
            proof {
                assert(tail[0] is None);
                lemma_until_done_append(pre, tail);
                assert(until_done(tail) =~= seq![None::<Seq<char>>]);
                assert(has_done(all));
                assert(until_done(all) =~= pre + seq![None::<Seq<char>>]);
                assert(items_view(out@) =~= items_view(before) + until_done(all));
            }
            hit = true;
        } else {
            proof {
                lemma_has_done_append(pre, seq![all[k as int]]);
                assert(!has_done(seq![all[k as int]])) by {
                    if has_done(seq![all[k as int]]) {
                        assert(seq![all[k as int]][0] is None);
                    }
                }
            }
            k = k + 1;
        }
    }
    proof {
        if !hit {
            assert(items@.subrange(0, items.len() as int) =~= items@);
            lemma_until_done_plain(all);
        }
    }
    hit
}

/// `a` followed by `b`.
fn concat_chars(a: &Vec<char>, b: &Vec<char>) -> (r: Vec<char>)
    ensures
        r@ == a@ + b@,
{
    let mut r = crate::text::slice_chars(a, 0, a.len());
    let mut k: usize = 0;
    assert(a@.subrange(0, a.len() as int) =~= a@);
    while k < b.len()
        invariant
            k <= b.len(),
            r@ == a@ + b@.subrange(0, k as int),
        decreases b.len() - k,
    {
        r.push(b[k]);
        k = k + 1;
        assert(r@ =~= a@ + b@.subrange(0, k as int));
    }
    assert(b@.subrange(0, b.len() as int) =~= b@);
    r
}

/// Incremental decoder of a server-sent event stream: bytes arrive in
/// arbitrary chunks, events end at a blank line, and `data: [DONE]` ends the
/// stream.
#[derive(Debug)]
pub struct SseDecoder {
    /// Text received after the last complete event.
    pub buffer: Vec<char>,
    /// Whether the terminator has been seen.
    pub finished: bool,
}

impl SseDecoder {
    pub fn new() -> (d: SseDecoder)
        ensures
            d.buffer@.len() == 0,
            !d.finished,
    {
        SseDecoder { buffer: Vec::new(), finished: false }
    }

    /// Append `chunk` and hand out the items of every event it completes, up
    /// to and including the terminator.
    pub fn feed(&mut self, chunk: &str) -> (out: Vec<SseItem>)
        requires
            !old(self).finished,
        ensures
            items_view(out@) == until_done(
                all_items(split_events(old(self).buffer@ + chunk@, 0, 0).0),
            ),
            final(self).finished == has_done(
                all_items(split_events(old(self).buffer@ + chunk@, 0, 0).0),
            ),
            !has_done(all_items(split_events(old(self).buffer@ + chunk@, 0, 0).0))
                ==> final(self).buffer@ == split_events(old(self).buffer@ + chunk@, 0, 0).1,
    {
        let s = concat_chars(&self.buffer, &chars_of(chunk));
        let ghost whole = old(self).buffer@ + chunk@;
        assert(s@ == whole);
        let ghost evs_all = split_events(s@, 0, 0).0;
        assert(evs_all == split_events(whole, 0, 0).0);
        let ghost processed: Seq<Seq<char>> = Seq::empty();
        let mut out: Vec<SseItem> = Vec::new();
        let mut start: usize = 0;
        let mut i: usize = 0;
        let mut hit = false;
        assert(all_items(processed) =~= Seq::<Option<Seq<char>>>::empty());
        assert(evs_all =~= processed + split_events(s@, 0, 0).0);
        while s.len() - i > 1 && !hit
            invariant
                start <= i <= s.len(),
                s@ == whole,
                evs_all == split_events(whole, 0, 0).0,
                hit ==> items_view(out@) == until_done(all_items(evs_all)) && has_done(
                    all_items(evs_all),
                ),
                !hit ==> {
                    &&& evs_all == processed + split_events(s@, start as int, i as int).0
                    &&& split_events(s@, 0, 0).1 == split_events(s@, start as int, i as int).1
                    &&& items_view(out@) == all_items(processed)
                    &&& !has_done(all_items(processed))
                },
            decreases s.len() - i + (if hit { 0int } else { 1int }),
        {
            if s[i] == '\n' && s[i + 1] == '\n' {
                let items = event_items_exec(&s, start, i);
                let ghost ev = s@.subrange(start as int, i as int);
                let ghost rest = split_events(s@, i + 2, i + 2);
                assert(split_events(s@, start as int, i as int) == (seq![ev] + rest.0, rest.1));
                assert(evs_all =~= (processed + seq![ev]) + rest.0);
                proof {
                    lemma_feed_step(processed, ev, rest.0);
                }
                hit = push_until_done(&mut out, &items);
                if !hit {
                    proof {
                        lemma_until_done_plain(event_items(ev));
                        processed = processed + seq![ev];
                    }
                    start = i + 2;
                    i = i + 2;
                }
            } else {
                i = i + 1;
            }
        }
        if hit {
            self.finished = true;
            self.buffer = Vec::new();
            return out;
        }
        proof {
            assert(split_events(s@, start as int, i as int) == (
                Seq::<Seq<char>>::empty(),
                s@.subrange(start as int, s@.len() as int),
            ));
            assert(evs_all =~= processed);
            lemma_until_done_plain(all_items(processed));
        }
        self.buffer = crate::text::slice_chars(&s, start, s.len());
        assert(self.buffer@ == split_events(s@, 0, 0).1);
        assert(items_view(out@) == until_done(all_items(evs_all)));
        out
    }
}

/// The incremental delta of one streamed choice.
#[derive(Debug)]
pub struct StreamDelta {
    pub content: Option<String>,
    pub reasoning_content: Option<String>,
}

/// One parsed `data:` payload of the stream.
#[derive(Debug)]
pub struct StreamChunk {
    pub choices: Vec<StreamDelta>,
    pub usage: Option<TokenUsage>,
}

/// A piece of text to forward to the UI as it streams.
#[derive(Debug)]
pub enum StreamOutput {
    /// Part of the answer.
    Delta(String),
    /// Part of the reasoning.
    Reasoning(String),
}

/// Outputs viewed as (is_reasoning, text).
pub open spec fn output_view(o: StreamOutput) -> (bool, Seq<char>) {
    match o {
        StreamOutput::Delta(t) => (false, t@),
        StreamOutput::Reasoning(t) => (true, t@),
    }
}

/// The outputs of one delta: its content, then its reasoning.
pub open spec fn delta_outputs(d: StreamDelta) -> Seq<(bool, Seq<char>)> {
    (match d.content {
        Some(c) => seq![(false, c@)],
        None => Seq::empty(),
    }) + (match d.reasoning_content {
        Some(r) => seq![(true, r@)],
        None => Seq::empty(),
    })
}

pub open spec fn deltas_outputs(ds: Seq<StreamDelta>) -> Seq<(bool, Seq<char>)>
    decreases ds.len(),
{
    if ds.len() == 0 {
        Seq::empty()
    } else {
        deltas_outputs(ds.drop_last()) + delta_outputs(ds.last())
    }
}

pub open spec fn deltas_text(ds: Seq<StreamDelta>) -> Seq<char>
    decreases ds.len(),
{
    if ds.len() == 0 {
        Seq::empty()
    } else {
        deltas_text(ds.drop_last()) + text_or_empty(ds.last().content)
    }
}

pub open spec fn deltas_reasoning(ds: Seq<StreamDelta>) -> Seq<char>
    decreases ds.len(),
{
    if ds.len() == 0 {
        Seq::empty()
    } else {
        deltas_reasoning(ds.drop_last()) + text_or_empty(ds.last().reasoning_content)
    }
}

/// The answer, reasoning and usage collected from a streamed reply.
#[derive(Debug)]
pub struct StreamAccumulator {
    pub text: String,
    pub reasoning: String,
    pub usage: Option<TokenUsage>,
}

impl StreamAccumulator {
    pub fn new() -> (a: StreamAccumulator)
        ensures
            a.text@.len() == 0,
            a.reasoning@.len() == 0,
            a.usage is None,
    {
        StreamAccumulator { text: String::new(), reasoning: String::new(), usage: None }
    }

    /// Absorb one payload; the outputs are what to forward to the UI, in order.
    pub fn absorb(&mut self, chunk: StreamChunk) -> (out: Vec<StreamOutput>)
        ensures
            out@.map_values(|o: StreamOutput| output_view(o)) == deltas_outputs(chunk.choices@),
            final(self).text@ == old(self).text@ + deltas_text(chunk.choices@),
            final(self).reasoning@ == old(self).reasoning@ + deltas_reasoning(chunk.choices@),
            final(self).usage == (match chunk.usage {
                Some(u) => Some(u),
                None => old(self).usage,
            }),
    {
        if chunk.usage.is_some() {
            self.usage = chunk.usage;
        }
        let mut out: Vec<StreamOutput> = Vec::new();
        let ghost t0 = self.text@;
        let ghost r0 = self.reasoning@;
        let ghost ds = chunk.choices@;
        let mut i: usize = 0;
        while i < chunk.choices.len()
            invariant
                i <= chunk.choices.len(),
                ds == chunk.choices@,
                out@.map_values(|o: StreamOutput| output_view(o)) == deltas_outputs(
                    ds.subrange(0, i as int),
                ),
                self.text@ == t0 + deltas_text(ds.subrange(0, i as int)),
                self.reasoning@ == r0 + deltas_reasoning(ds.subrange(0, i as int)),
                self.usage == (match chunk.usage {
                    Some(u) => Some(u),
                    None => old(self).usage,
                }),
            decreases chunk.choices.len() - i,
        {
            let d = &chunk.choices[i];
            let ghost before = out@.map_values(|o: StreamOutput| output_view(o));
            let ghost tb = self.text@;
            let ghost rb = self.reasoning@;
            if let Some(c) = &d.content {
                self.text.append(c.as_str());
                out.push(StreamOutput::Delta(c.clone()));
            }
            let ghost mid = out@.map_values(|o: StreamOutput| output_view(o));
            if let Some(r) = &d.reasoning_content {
                self.reasoning.append(r.as_str());
                out.push(StreamOutput::Reasoning(r.clone()));
            }
            proof {
                let sub = ds.subrange(0, i + 1);
                assert(sub.drop_last() =~= ds.subrange(0, i as int));
                assert(sub.last() == *d);
                assert(out@.map_values(|o: StreamOutput| output_view(o)) =~= before
                    + delta_outputs(*d));
                assert(self.text@ =~= t0 + deltas_text(sub));
                assert(self.reasoning@ =~= r0 + deltas_reasoning(sub));
            }
            i = i + 1;
        }
        assert(ds.subrange(0, ds.len() as int) =~= ds);
        out
    }

    /// The turn result once the stream ended.
    pub fn finish(self) -> (r: ChatTurnResult)
        ensures
            r.text == self.text,
            r.reasoning == self.reasoning,
            r.tool_call_count == 0,
            r.usage == (match self.usage {
                Some(u) => u,
                None => TokenUsage { prompt_tokens: 0, completion_tokens: 0, total_tokens: 0 },
            }),
    {
        let usage = match self.usage {
            Some(u) => u,
            None => TokenUsage::zero(),
        };
        ChatTurnResult { text: self.text, usage, tool_call_count: 0, reasoning: self.reasoning }
    }
}

} // verus!
