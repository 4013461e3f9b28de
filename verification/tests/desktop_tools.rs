use ipet::desktop_tools::{
    check_timed_out, command_stderr, extension_matches, first_match_line, is_hidden_name, normalize_extensions,
    note_body, path_to_open, process_matches, slugify, split_words, text_report, truncate_chars,
    url_encode, CreateNoteArgs, DiskCleanupCandidatesArgs, EntryAction, GitStatusArgs,
    ListProcessesArgs, NetworkStatusArgs, OpenPathArgs, OpenTarget, PackageScriptsArgs,
    ProcessOrder, ReadTextFileArgs, RecentSystemErrorsArgs, RunProjectCheckArgs,
    ScreenshotOcrArgs, SearchFilesArgs, SearchProgress, WeatherLookupArgs, WebSearchArgs,
    MAX_SEARCH_VISITED,
};

fn search_args(query: &str) -> SearchFilesArgs {
    SearchFilesArgs {
        path: "/tmp".to_string(),
        query: query.to_string(),
        search_content: None,
        include_hidden: None,
        max_results: None,
        max_file_bytes: None,
        file_extensions: None,
    }
}

#[test]
fn slugify_lowercases_and_dashes_non_alnum() {
    assert_eq!(slugify("Hello, World!"), "hello-world");
    assert_eq!(slugify("   "), "note");
    assert_eq!(slugify("a///b"), "a-b");
}

#[test]
fn slugify_keeps_non_ascii_letters_and_is_stable() {
    assert_eq!(slugify("日记 2024"), "日记-2024");
    assert_eq!(slugify("--Already-Slug--"), "already-slug");
    assert_eq!(slugify(&slugify("My Note Title")), slugify("My Note Title"));
}

#[test]
fn url_encode_percent_encodes_reserved() {
    assert_eq!(url_encode("Tokyo"), "Tokyo");
    assert_eq!(url_encode("a b/c"), "a%20b%2Fc");
    assert_eq!(url_encode("中文"), "%E4%B8%AD%E6%96%87");
}

#[test]
fn url_encode_keeps_unreserved_marks() {
    assert_eq!(url_encode("-._~"), "-._~");
    assert_eq!(url_encode("a+b=c&d"), "a%2Bb%3Dc%26d");
    assert_eq!(url_encode(""), "");
}

#[test]
fn truncation_marks_cut_text() {
    assert_eq!(truncate_chars("hello", 5), "hello");
    assert_eq!(truncate_chars("hello", 3), "hel\n...[truncated]");
    assert_eq!(truncate_chars("中文字符", 2), "中文\n...[truncated]");
    let r = text_report("abcdef", 4);
    assert_eq!((r.total, r.truncated, r.text.as_str()), (6, true, "abcd\n...[truncated]"));
    let r = text_report("ab", 4);
    assert_eq!((r.total, r.truncated, r.text.as_str()), (2, false, "ab"));
}

#[test]
fn extension_filters_normalize_and_match() {
    let exts = normalize_extensions(vec![" .RS ".to_string(), "..md".to_string(), "  ".to_string(), ".".to_string()]);
    assert_eq!(exts, vec!["rs".to_string(), "md".to_string()]);
    assert!(extension_matches(Some("Rs"), &exts));
    assert!(!extension_matches(Some("txt"), &exts));
    assert!(!extension_matches(None, &exts));
}

#[test]
fn search_plan_defaults_and_limits() {
    let plan = search_args("  Notes ").plan().unwrap();
    assert_eq!(plan.query, "Notes");
    assert_eq!(plan.query_lc, "notes");
    assert!(!plan.include_hidden && !plan.search_content);
    assert_eq!(plan.max_results, 30);
    assert_eq!(plan.max_file_bytes, 262144);
    assert!(plan.extensions.is_none());

    let mut args = search_args("x");
    args.max_results = Some(0);
    args.max_file_bytes = Some(1);
    args.file_extensions = Some(vec!["TXT".to_string()]);
    args.search_content = Some(true);
    let plan = args.plan().unwrap();
    assert_eq!(plan.max_results, 1);
    assert_eq!(plan.max_file_bytes, 1024);
    assert_eq!(plan.extensions, Some(vec!["txt".to_string()]));
    assert!(plan.reads_content(1024) && !plan.reads_content(1025));

    assert_eq!(search_args("   ").plan().err().as_deref(), Some("query must not be empty"));
}

#[test]
fn search_files_finds_name_matches() {
    let plan = search_args("notes").plan().unwrap();
    assert_eq!(plan.entry_action(true, Some("txt"), "notes.txt", "/tmp/x/notes.txt"), EntryAction::NameMatch);
    assert_eq!(plan.entry_action(true, Some("txt"), "other.txt", "/tmp/NOTES/other.txt"), EntryAction::NameMatch);
    assert_eq!(plan.entry_action(true, Some("txt"), "other.txt", "/tmp/other.txt"), EntryAction::Skip);

    let mut args = search_args("hello");
    args.search_content = Some(true);
    args.file_extensions = Some(vec!["md".to_string()]);
    let plan = args.plan().unwrap();
    assert_eq!(plan.entry_action(true, Some("txt"), "hello.txt", "/h/hello.txt"), EntryAction::Skip);
    assert_eq!(plan.entry_action(false, None, "hello", "/h/hello"), EntryAction::NameMatch);
    assert_eq!(plan.entry_action(true, Some("MD"), "a.md", "/h/a.md"), EntryAction::SearchContent);
    assert_eq!(plan.entry_action(false, None, "dir", "/h/dir"), EntryAction::Skip);
}

#[test]
fn search_walk_stops_at_limits() {
    let mut p = SearchProgress::new();
    assert!(p.visit(2));
    p.record_match();
    p.record_match();
    assert!(!p.visit(2));
    assert!(p.truncated);
    assert_eq!(p.scanned_entries, 2);

    let mut p = SearchProgress::new();
    p.scanned_entries = MAX_SEARCH_VISITED - 1;
    assert!(!p.visit(100));
    assert!(p.truncated);
}

#[test]
fn content_search_reports_first_matching_line() {
    let text = "alpha\n  The Needle is here  \nneedle again\n";
    assert_eq!(first_match_line(text, "needle"), Some((2, "The Needle is here".to_string())));
    assert_eq!(first_match_line(text, "absent"), None);
    let long = format!("{}needle", "x".repeat(300));
    let (line, snippet) = first_match_line(&long, "needle").unwrap();
    assert_eq!(line, 1);
    assert_eq!(snippet.chars().count(), 220 + "\n...[truncated]".chars().count());
}

#[test]
fn read_text_file_respects_line_window() {
    let args = ReadTextFileArgs { path: "a.txt".to_string(), max_bytes: None, start_line: Some(2), max_lines: Some(1) };
    let w = args.window();
    let out = w.show(b"a\nb\nc\n".to_vec(), 6);
    assert!(out.content.contains("2: b"));
    assert!(!out.content.contains("1: a"));
    assert!(!out.truncated);
}

#[test]
fn read_window_defaults_truncation_and_lossy_text() {
    let args = ReadTextFileArgs { path: "f".to_string(), max_bytes: Some(0), start_line: Some(0), max_lines: Some(99999) };
    let w = args.window();
    assert_eq!((w.max_bytes, w.start_line, w.max_lines), (1, 1, 2000));
    let d = ReadTextFileArgs { path: "f".to_string(), max_bytes: None, start_line: None, max_lines: None }.window();
    assert_eq!((d.max_bytes, d.start_line, d.max_lines), (65536, 1, 300));

    let out = w.show(b"xy".to_vec(), 2);
    assert!(out.truncated);
    assert_eq!(out.content, "1: x");

    let all = d.show(b"one\r\ntwo\n\xffthree".to_vec(), 14);
    assert_eq!(all.content, "1: one\n2: two\n3: \u{FFFD}three");
    assert!(!all.truncated);
}

#[test]
fn run_project_check_rejects_unallowlisted_command() {
    let err = RunProjectCheckArgs { path: None, command: "rm -rf /".to_string(), timeout_secs: None }
        .check()
        .err()
        .unwrap();
    assert!(err.contains("allow-list"), "got: {err}");
    assert!(err.starts_with("command not in allow-list: rm -rf /（允许：npm test,"));
}

#[test]
fn run_project_check_rejects_empty_command() {
    let err = RunProjectCheckArgs { path: None, command: "   ".to_string(), timeout_secs: None }
        .check()
        .err()
        .unwrap();
    assert!(err.contains("empty"));
}

#[test]
fn run_project_check_normalizes_whitespace() {
    let c = RunProjectCheckArgs { path: Some(".".to_string()), command: "  cargo   fmt\t--check ".to_string(), timeout_secs: Some(1) }
        .check()
        .unwrap();
    assert_eq!(c.normalized, "cargo fmt --check");
    assert_eq!(c.program, "cargo");
    assert_eq!(c.args, vec!["fmt".to_string(), "--check".to_string()]);
    assert_eq!(c.timeout_secs, 5);
    let c = RunProjectCheckArgs { path: None, command: "npm test".to_string(), timeout_secs: None }.check().unwrap();
    assert_eq!(c.timeout_secs, 60);
    assert!(c.args == vec!["test".to_string()]);
    let words: Vec<String> = split_words(&" a  b ".chars().collect()).into_iter().map(|w| w.into_iter().collect()).collect();
    assert_eq!(words, vec!["a".to_string(), "b".to_string()]);
}

#[test]
fn timed_out_runs_are_reported() {
    let stderr = command_stderr(true, 60, "partial");
    assert_eq!(stderr, "timed out after 60s\npartial");
    assert!(check_timed_out(false, &stderr));
    assert!(!check_timed_out(true, &stderr));
    assert_eq!(command_stderr(false, 60, "err"), "err");
}

#[test]
fn create_note_writes_and_appends_markdown() {
    let plan = CreateNoteArgs { title: "  My Note Title ".to_string(), content: "hello world".to_string(), append: None }
        .plan()
        .unwrap();
    assert_eq!(plan.file_name, "my-note-title.md");
    assert_eq!(plan.title, "My Note Title");
    assert!(!plan.append);
    let written = note_body(&plan.title, "hello world", plan.append, "");
    assert!(written.contains("# My Note Title"));
    assert!(written.contains("hello world"));

    let first = note_body("Journal", "one", false, "");
    let journal = note_body("Journal", "two", true, &first);
    assert!(journal.contains("one"));
    assert!(journal.contains("## Journal"));
    assert!(journal.contains("two"));
    assert_eq!(journal, "# Journal\n\none\n\n## Journal\n\ntwo");
    assert_eq!(note_body("T", "c", true, ""), "# T\n\nc");
}

#[test]
fn create_note_refuses_blank_titles_and_large_bodies() {
    let blank = CreateNoteArgs { title: " ".to_string(), content: String::new(), append: None };
    assert_eq!(blank.plan().err().as_deref(), Some("title must not be empty"));
    let big = CreateNoteArgs { title: "t".to_string(), content: "x".repeat(262145), append: Some(true) };
    assert_eq!(big.plan().err().as_deref(), Some("note too large (max 262144 bytes)"));
    let edge = CreateNoteArgs { title: "t".to_string(), content: "x".repeat(262144), append: Some(true) };
    assert!(edge.plan().unwrap().append);
}

#[test]
fn open_targets_split_urls_from_paths() {
    match (OpenPathArgs { path: " https://example.com ".to_string() }).target().unwrap() {
        OpenTarget::Url(u) => assert_eq!(u, "https://example.com"),
        other => panic!("{other:?}"),
    }
    match (OpenPathArgs { path: "/tmp".to_string() }).target().unwrap() {
        OpenTarget::Path(p) => assert_eq!(p, "/tmp"),
        other => panic!("{other:?}"),
    }
    assert_eq!((OpenPathArgs { path: "  ".to_string() }).target().err().as_deref(), Some("path must not be empty"));
    assert_eq!(path_to_open("  ./x ").unwrap(), "./x");
}

#[test]
fn weather_and_search_requests() {
    let w = WeatherLookupArgs { city: " New York ".to_string(), units: Some("F".to_string()) }.request().unwrap();
    assert_eq!(w.city, "New York");
    assert_eq!(w.url, "https://wttr.in/New%20York?format=j1");
    assert!(w.fahrenheit);
    assert_eq!((w.temp_key(), w.feels_key(), w.unit_label()), ("temp_F", "FeelsLikeF", "F"));
    let c = WeatherLookupArgs { city: "Tokyo".to_string(), units: None }.request().unwrap();
    assert_eq!((c.temp_key(), c.feels_key(), c.unit_label()), ("temp_C", "FeelsLikeC", "C"));
    assert_eq!(WeatherLookupArgs { city: " ".to_string(), units: None }.request().err().as_deref(), Some("city must not be empty"));

    let s = WebSearchArgs { query: "rust lang".to_string(), max_results: Some(50) }.request().unwrap();
    assert_eq!(s.max_results, 20);
    assert_eq!(s.url, "https://api.duckduckgo.com/?q=rust%20lang&format=json&no_html=1&skip_disambig=1&t=ipet");
    assert_eq!(WebSearchArgs { query: "x".to_string(), max_results: None }.request().unwrap().max_results, 8);
}

#[test]
fn tool_argument_defaults() {
    let g = GitStatusArgs { path: None, include_diff: Some(true), max_diff_chars: None };
    assert_eq!(g.repo_path(), ".");
    assert_eq!(g.diff_limit(), Some(12000));
    assert_eq!(GitStatusArgs { path: None, include_diff: Some(true), max_diff_chars: Some(0) }.diff_limit(), None);
    assert_eq!(GitStatusArgs { path: None, include_diff: None, max_diff_chars: Some(9) }.diff_limit(), None);

    let l = ListProcessesArgs { limit: Some(500), sort_by: Some("memory".to_string()), filter: Some("Code".to_string()) };
    assert_eq!(l.limit(), 100);
    assert_eq!(l.order(), ProcessOrder::Memory);
    assert_eq!(l.filter_lc(), "code");
    assert_eq!(ListProcessesArgs { limit: None, sort_by: Some("x".to_string()), filter: None }.order(), ProcessOrder::Cpu);
    assert!(process_matches("", "a", "b"));
    assert!(process_matches("code", "Code Helper", ""));
    assert!(!process_matches("vim", "Code", "code --wait"));

    let n = NetworkStatusArgs { dns_host: None, tcp_target: None, timeout_ms: Some(1), include_interfaces: None }.probe();
    assert_eq!((n.dns_host.as_str(), n.tcp_target.as_str(), n.timeout_ms, n.include_interfaces), ("example.com", "1.1.1.1:53", 100, true));
    assert_eq!(RecentSystemErrorsArgs { limit: None, since_hours: Some(1000) }.window(), (20, 168));
    assert_eq!(DiskCleanupCandidatesArgs { max_results: None }.max_results(), 40);
    assert_eq!(PackageScriptsArgs { path: None }.project_path(), ".");
    let (lang, max) = ScreenshotOcrArgs { language: None, max_chars: Some(0) }.settings();
    assert_eq!((lang.as_str(), max), ("eng", 1));
}

fn percent_decode(s: &str) -> Vec<u8> {
    let b = s.as_bytes();
    let mut out = Vec::new();
    let mut i = 0;
    while i < b.len() {
        if b[i] == b'%' && i + 2 < b.len() {
            out.push(u8::from_str_radix(&s[i + 1..i + 3], 16).unwrap());
            i += 3;
        } else {
            out.push(b[i]);
            i += 1;
        }
    }
    out
}

#[test]
fn url_encoding_decodes_back_and_has_the_stated_length() {
    for text in ["a b/c", "中文 ~x", "", "100%", "\n\t\"quoted\""] {
        let enc = url_encode(text);
        assert_eq!(percent_decode(&enc), text.as_bytes());
        let expected: usize = text
            .bytes()
            .map(|b| if b.is_ascii_alphanumeric() || b"-._~".contains(&b) { 1 } else { 3 })
            .sum();
        assert_eq!(enc.len(), expected);
    }
}

#[test]
fn hidden_names_start_with_a_dot() {
    assert!(is_hidden_name(".git"));
    assert!(is_hidden_name("."));
    assert!(!is_hidden_name("src"));
    assert!(!is_hidden_name(""));
    assert!(!is_hidden_name("a.b"));
}

#[test]
fn a_walk_where_everything_matches_stops_at_the_limit() {
    let mut p = SearchProgress::new();
    for _ in 0..100 {
        if !p.visit(3) {
            break;
        }
        p.record_match();
    }
    assert_eq!(p.matches, 3);
    assert_eq!(p.scanned_entries, 4);
    assert!(p.truncated);
}
