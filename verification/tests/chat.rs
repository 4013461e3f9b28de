use ipet::chat::memory_line;
use ipet::chat::{last_user_message, reply_to_store, text_chunks, uuid_like};
use ipet::llm_client::ChatUiMessage;

fn msg(role: &str, content: &str) -> ChatUiMessage {
    ChatUiMessage { role: role.to_string(), content: content.to_string() }
}

#[test]
fn replies_are_replayed_in_small_chunks() {
    let chunks = text_chunks("Hello world. 你好！ok");
    assert_eq!(chunks, vec!["Hell", "o wo", "rld.", " 你好！", "ok"]);
    assert_eq!(chunks.concat(), "Hello world. 你好！ok");
    assert!(text_chunks("").is_empty());
    assert_eq!(text_chunks("a\nb"), vec!["a\n", "b"]);
}

#[test]
fn the_last_user_message_is_stored_trimmed() {
    let ms = vec![msg("user", "first"), msg("assistant", "a"), msg("user", "  second  "), msg("assistant", "b")];
    assert_eq!(last_user_message(&ms).as_deref(), Some("second"));
    assert_eq!(last_user_message(&vec![msg("assistant", "x")]), None);
    assert_eq!(reply_to_store("  answer \n").as_deref(), Some("answer"));
    assert_eq!(reply_to_store(" \n "), None);
}

#[test]
fn request_ids_are_hex_clock_readings() {
    assert_eq!(uuid_like(255), "ff");
    assert_eq!(uuid_like(0), "0");
    assert_eq!(uuid_like(0x1234_abcd), "1234abcd");
}

#[test]
fn memory_lines_are_single_lines() {
    assert_eq!(memory_line("lang", "prefers\nRust"), "- [lang] prefers Rust");
    assert_eq!(memory_line("", ""), "- [] ");
}

#[test]
fn stored_text_is_trimmed_of_exactly_unicode_whitespace() {
    for code in 0u32..0x3100 {
        let Some(c) = char::from_u32(code) else { continue };
        let text = format!("{c}x{c}");
        let expected = if c.is_whitespace() { "x".to_string() } else { text.clone() };
        assert_eq!(reply_to_store(&text), Some(expected), "U+{code:04X}");
    }
}
