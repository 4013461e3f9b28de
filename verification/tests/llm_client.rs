use ipet::config::LlmSettings;
use ipet::error::AppError;
use ipet::llm_client::{
    tool_error_payload, ChatUiMessage, LlmClient, LoopStep, ModelReply, ReplyMessage, SseDecoder,
    SseItem, StreamAccumulator, StreamChunk, StreamDelta, StreamOutput, TokenUsage, ToolCall,
    ToolCallFunction, ToolLoop, MAX_TOOL_ROUNDS,
};

fn usage(p: i64, c: i64, t: i64) -> TokenUsage {
    TokenUsage { prompt_tokens: p, completion_tokens: c, total_tokens: t }
}

fn settings_with_key() -> LlmSettings {
    let mut s = LlmSettings::default();
    s.api_key = Some("sk-test".to_string());
    s
}

fn msg(role: &str, content: &str) -> ChatUiMessage {
    ChatUiMessage { role: role.to_string(), content: content.to_string() }
}

fn call(id: &str, name: &str) -> ToolCall {
    ToolCall {
        id: id.to_string(),
        kind: "function".to_string(),
        function: ToolCallFunction { name: name.to_string(), arguments: "{}".to_string() },
    }
}

fn data_items(items: &[SseItem]) -> Vec<Option<String>> {
    items
        .iter()
        .map(|i| match i {
            SseItem::Data(d) => Some(d.clone()),
            SseItem::Done => None,
        })
        .collect()
}

#[test]
fn token_usage_add_accumulates() {
    let mut total = TokenUsage::zero();
    total.add(Some(&usage(10, 20, 30)));
    total.add(None);
    total.add(Some(&usage(5, 5, 10)));
    assert_eq!(total, usage(15, 25, 40));
    assert!(total.can_add(Some(&usage(1, 1, 1))));
    assert!(!total.can_add(Some(&usage(i64::MAX, 0, 0))));
}

#[test]
fn client_needs_a_key_and_valid_settings() {
    match LlmClient::new(LlmSettings::default()) {
        Err(AppError::Config(m)) => assert_eq!(m, "请先在设置页面配置 API Key"),
        other => panic!("{other:?}"),
    }
    let mut bad = settings_with_key();
    bad.model = " ".to_string();
    match LlmClient::new(bad) {
        Err(AppError::Config(m)) => assert_eq!(m, "模型名不能为空"),
        other => panic!("{other:?}"),
    }
    let mut s = settings_with_key();
    s.base_url = "https://api.example.com/v1/ ".to_string();
    let client = LlmClient::new(s).unwrap();
    assert_eq!(client.chat_completions_url(), "https://api.example.com/v1/chat/completions");
    assert_eq!(client.model(), "gpt-4.1-mini");
}

#[test]
fn system_prompt_carries_memories() {
    let mut s = settings_with_key();
    s.system_prompt = "base".to_string();
    let client = LlmClient::new(s).unwrap();
    assert_eq!(client.system_message_content(), "base");
    let client = client.with_recent_memories(vec!["- [a] one".to_string(), "- [b] two".to_string()]);
    assert_eq!(client.system_message_content(), "base\n\n# 长期记忆（跨会话，持续生效）\n- [a] one\n- [b] two");
}

#[test]
fn messages_keep_the_latest_context() {
    let mut s = settings_with_key();
    s.max_context_messages = 4;
    let client = LlmClient::new(s).unwrap();
    let ui: Vec<ChatUiMessage> = (0..6).map(|i| msg(if i % 2 == 0 { "user" } else { "assistant" }, &format!("m{i}"))).collect();
    let built = client.build_messages(&ui);
    assert_eq!(built.len(), 5);
    assert_eq!(built[0].role, "system");
    let contents: Vec<&str> = built[1..].iter().map(|m| m.content.as_deref().unwrap()).collect();
    assert_eq!(contents, vec!["m2", "m3", "m4", "m5"]);
    assert_eq!(built[1].role, "user");
    assert_eq!(built[2].role, "assistant");
}

#[test]
fn tool_loop_runs_tools_then_finishes() {
    let (mut lp, first) = ToolLoop::start(Vec::new(), true);
    assert!(matches!(first, LoopStep::Request { allow_tools: true }));
    let step = lp.on_reply(ModelReply {
        first_choice: Some(ReplyMessage {
            content: None,
            tool_calls: Some(vec![call("c1", "get_system_status"), call("c2", "scan_disk")]),
            reasoning_content: Some("think".to_string()),
        }),
        usage: Some(usage(1, 2, 3)),
    });
    match step {
        LoopStep::RunTools(calls) => assert_eq!(calls.len(), 2),
        other => panic!("{other:?}"),
    }
    let step = lp.on_tool_results(vec![Ok("{\"ok\":true}".to_string()), Err("boom".to_string())]);
    assert!(matches!(step, LoopStep::Request { allow_tools: true }));
    assert_eq!(lp.messages.len(), 3);
    assert_eq!(lp.messages[1].tool_call_id.as_deref(), Some("c1"));
    assert_eq!(lp.messages[2].content.as_deref(), Some("{\"error\":\"boom\"}"));
    let step = lp.on_reply(ModelReply {
        first_choice: Some(ReplyMessage { content: Some("done".to_string()), tool_calls: None, reasoning_content: None }),
        usage: Some(usage(4, 5, 9)),
    });
    match step {
        LoopStep::Finished(r) => {
            assert_eq!(r.text, "done");
            assert_eq!(r.tool_call_count, 2);
            assert_eq!(r.usage, usage(5, 7, 12));
            assert_eq!(r.reasoning, "think");
        }
        other => panic!("{other:?}"),
    }
}

#[test]
fn tool_loop_gives_up_after_the_round_limit() {
    let (mut lp, _) = ToolLoop::start(Vec::new(), true);
    let mut last = None;
    for round in 0..MAX_TOOL_ROUNDS {
        let step = lp.on_reply(ModelReply {
            first_choice: Some(ReplyMessage { content: None, tool_calls: Some(vec![call("c", "t")]), reasoning_content: None }),
            usage: None,
        });
        assert!(matches!(step, LoopStep::RunTools(_)));
        let step = lp.on_tool_results(vec![Ok("r".to_string())]);
        if round + 2 == MAX_TOOL_ROUNDS {
            assert!(matches!(step, LoopStep::Request { allow_tools: false }), "the last round offers no tools");
        }
        last = Some(step);
    }
    match last.unwrap() {
        LoopStep::Failed(AppError::Model(m)) => assert_eq!(m, "工具调用未在 6 轮内收敛"),
        other => panic!("{other:?}"),
    }
}

#[test]
fn tool_loop_without_candidates_fails() {
    let (mut lp, first) = ToolLoop::start(Vec::new(), false);
    assert!(matches!(first, LoopStep::Request { allow_tools: false }));
    match lp.on_reply(ModelReply { first_choice: None, usage: None }) {
        LoopStep::Failed(AppError::Model(m)) => assert_eq!(m, "模型没有返回候选结果"),
        other => panic!("{other:?}"),
    }
    assert_eq!(tool_error_payload("a\"b"), "{\"error\":\"a\\\"b\"}");
}

#[test]
fn sse_events_decode_across_chunk_boundaries() {
    let mut d = SseDecoder::new();
    let mut items = d.feed("data: {\"a\":1}\n");
    assert!(items.is_empty());
    items.extend(d.feed("\ndata: {\"b\":2}\r\n\n: comment\n\ndat"));
    items.extend(d.feed("a: [DONE]\n\ndata: ignored\n\n"));
    assert_eq!(
        data_items(&items),
        vec![Some("{\"a\":1}".to_string()), Some("{\"b\":2}".to_string()), None]
    );
    assert!(d.finished);
}

#[test]
fn stream_accumulator_collects_text_and_reasoning() {
    let mut acc = StreamAccumulator::new();
    let out = acc.absorb(StreamChunk {
        choices: vec![StreamDelta { content: Some("Hel".to_string()), reasoning_content: Some("r1".to_string()) }],
        usage: None,
    });
    assert_eq!(out.len(), 2);
    assert!(matches!(&out[0], StreamOutput::Delta(t) if t == "Hel"));
    assert!(matches!(&out[1], StreamOutput::Reasoning(t) if t == "r1"));
    acc.absorb(StreamChunk {
        choices: vec![StreamDelta { content: Some("lo".to_string()), reasoning_content: None }],
        usage: Some(usage(3, 4, 7)),
    });
    let r = acc.finish();
    assert_eq!(r.text, "Hello");
    assert_eq!(r.reasoning, "r1");
    assert_eq!(r.usage, usage(3, 4, 7));
    assert_eq!(r.tool_call_count, 0);
}

#[test]
fn error_payload_escapes_control_characters() {
    assert_eq!(tool_error_payload("a\u{1}\n\\"), "{\"error\":\"a\\u0001\\n\\\\\"}");
    assert_eq!(tool_error_payload("é\u{7f}\u{1f}"), "{\"error\":\"é\u{7f}\\u001f\"}");
}

#[test]
fn usage_is_recorded_only_when_tokens_were_reported() {
    assert!(usage(1, 2, 3).worth_recording());
    assert!(!usage(0, 0, 0).worth_recording());
}
