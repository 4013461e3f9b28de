use ipet::error::AppError;
use ipet::storage::{
    builtin_tool_config, check_pomodoro_kind, chronological, default_true, pending_migrations,
    stats_window, usage_app_limit, ChatRecord, RetentionPolicy, RetentionReport, SCHEMA_VERSION,
};

fn record(id: i64, content: &str) -> ChatRecord {
    ChatRecord { id, role: "user".to_string(), content: content.to_string(), created_at: "t".to_string() }
}

#[test]
fn record_rejects_unknown_kind() {
    let err = check_pomodoro_kind("focus").unwrap_err();
    assert!(matches!(err, AppError::InvalidInput(_)));
    match err {
        AppError::InvalidInput(m) => assert_eq!(m, "番茄钟类型必须是 work 或 break，收到: focus"),
        _ => unreachable!(),
    }
    assert!(check_pomodoro_kind("work").is_ok());
    assert!(check_pomodoro_kind("break").is_ok());
}

#[test]
fn stats_windows_cover_today_week_and_month() {
    let w = stats_window("today");
    assert_eq!((w.days_back, w.label), (0, "today"));
    let w = stats_window("30d");
    assert_eq!((w.days_back, w.label), (29, "30d"));
    let w = stats_window("7d");
    assert_eq!((w.days_back, w.label), (6, "7d"));
    let w = stats_window("anything");
    assert_eq!((w.days_back, w.label), (6, "7d"));
    assert_eq!(usage_app_limit(0), 1);
    assert_eq!(usage_app_limit(50), 50);
    assert_eq!(usage_app_limit(999), 200);
}

#[test]
fn chat_messages_round_trip_in_chronological_order() {
    let newest_first = vec![record(3, "how are you"), record(2, "hi there"), record(1, "hello")];
    let recent = chronological(newest_first);
    assert_eq!(recent.len(), 3);
    let contents: Vec<&str> = recent.iter().map(|r| r.content.as_str()).collect();
    assert_eq!(contents, vec!["hello", "hi there", "how are you"]);
}

#[test]
fn migrations_run_from_the_stored_version() {
    assert_eq!(pending_migrations(0, 2), vec![1, 2]);
    assert_eq!(pending_migrations(1, 2), vec![2]);
    assert_eq!(pending_migrations(2, 2), Vec::<i64>::new());
    assert_eq!(pending_migrations(-3, 2), vec![1, 2]);
    assert_eq!(SCHEMA_VERSION, 2);
}

#[test]
fn builtin_entries_are_marked_builtin() {
    let t = builtin_tool_config(
        "scan_disk".to_string(),
        "磁盘扫描".to_string(),
        "d".to_string(),
        default_true(),
        "{}".to_string(),
        "2026-01-01T00:00:00Z".to_string(),
    );
    assert_eq!(t.kind, "builtin");
    assert!(t.built_in && t.enabled);
    assert!(t.http.is_none() && t.local.is_none());
}

#[test]
fn retention_defaults() {
    let p = RetentionPolicy::default();
    assert_eq!((p.chat_keep, p.token_usage_days, p.system_samples_days, p.disk_scan_days), (2000, 90, 30, 30));
    let r = RetentionReport::default();
    assert_eq!((r.chat_removed, r.tokens_removed, r.samples_removed, r.disk_removed), (0, 0, 0, 0));
}
