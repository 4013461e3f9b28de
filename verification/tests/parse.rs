use ipet::parse::{first_token_of, line_containing, split_lines, split_on};
use ipet::usage_tracker::{extract_hex, extract_pid};

fn chars(s: &str) -> Vec<char> {
    s.chars().collect()
}

fn strings(v: Vec<Vec<char>>) -> Vec<String> {
    v.into_iter().map(|c| c.into_iter().collect()).collect()
}

#[test]
fn lines_split_like_str_lines() {
    for text in ["", "a", "a\n", "a\r\nb", "a\n\nb\n", "x\r", "\n", "one\r\ntwo\r\n"] {
        let expected: Vec<String> = text.lines().map(|l| l.to_string()).collect();
        assert_eq!(strings(split_lines(&chars(text))), expected, "{text:?}");
    }
}

#[test]
fn fields_split_like_str_split() {
    for text in ["", "a#b", "#", "a##b#", "abc"] {
        let expected: Vec<String> = text.split('#').map(|l| l.to_string()).collect();
        assert_eq!(strings(split_on(&chars(text), '#')), expected, "{text:?}");
    }
}

#[test]
fn tokens_and_lines_with_a_marker() {
    let tok: Option<String> = first_token_of(&chars("  \t ab cd")).map(|c| c.into_iter().collect());
    assert_eq!(tok.as_deref(), Some("ab"));
    assert!(first_token_of(&chars("   ")).is_none());
    let line: Option<String> = line_containing(&chars("x\ny marker z\nmarker"), "marker").map(|c| c.into_iter().collect());
    assert_eq!(line.as_deref(), Some("y marker z"));
}

#[test]
fn radix_numbers() {
    assert_eq!(extract_hex("window id # ff\n"), Some(255));
    assert_eq!(extract_pid("_NET_WM_PID = +10\n"), Some(10));
    assert_eq!(extract_pid("_NET_WM_PID = -1\n"), None);
    assert_eq!(extract_pid("_NET_WM_PID = 4294967296\n"), None);
    assert_eq!(extract_pid("_NET_WM_PID = 4294967295\n"), Some(u32::MAX));
    assert_eq!(extract_hex("window id # g\n"), None);
}
