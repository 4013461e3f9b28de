use ipet::usage_tracker::{
    current_foreground_app, current_idle_seconds, exe_stem, extract_hex, extract_pid,
    extract_wm_class, tick_should_record, to_lower_hex, x11_window_arg, ForegroundReading,
    IdleReading, TICK_INTERVAL_SECS,
};

#[test]
fn foreground_app_is_callable_without_panicking() {
    let _ = current_foreground_app(ForegroundReading::Unsupported);
    let _ = current_foreground_app(ForegroundReading::X11 { window_props: None, comm: None });
}

#[test]
fn idle_seconds_is_callable_without_panicking() {
    let _ = current_idle_seconds(IdleReading::Unavailable);
}

#[test]
fn x11_parsers_window_id_and_wm_class() {
    let root = "_NET_ACTIVE_WINDOW(WINDOW): window id # 0x0380000a\n";
    assert_eq!(extract_hex(root), Some(0x0380_000a));

    let win = "_NET_WM_PID(CARDINAL) = 12345\nWM_CLASS(STRING) = \"code\", \"Code\"\n";
    assert_eq!(extract_pid(win), Some(12345));
    assert_eq!(extract_wm_class(win).as_deref(), Some("Code"));
}

#[test]
fn x11_parsers_reject_missing_or_bad_fields() {
    assert_eq!(extract_hex("nothing here\n"), None);
    assert_eq!(extract_hex("window id # zz\n"), None);
    assert_eq!(extract_hex("window id 0x10\n"), None);
    assert_eq!(extract_hex("window id #   ff  trailing\n"), Some(255));
    assert_eq!(extract_pid("_NET_WM_PID(CARDINAL) = not-a-number\n"), None);
    assert_eq!(extract_pid("_NET_WM_PID(CARDINAL) = 99999999999\n"), None);
    assert_eq!(extract_pid("x\r\n_NET_WM_PID(CARDINAL) = +7\r\n"), Some(7));
    assert_eq!(extract_wm_class("WM_CLASS(STRING) = \"only\"\n"), None);
    assert_eq!(extract_wm_class("WM_CLASS(STRING) = \"a\", \"\"\n"), None);
}

#[test]
fn x11_window_argument_is_hex() {
    assert_eq!(
        x11_window_arg("_NET_ACTIVE_WINDOW(WINDOW): window id # 0x0380000a\n").as_deref(),
        Some("0x380000a")
    );
    assert_eq!(x11_window_arg("_NET_ACTIVE_WINDOW(WINDOW): window id # 0x0\n"), None);
    let digits: String = to_lower_hex(0).into_iter().collect();
    assert_eq!(digits, "0");
    let digits: String = to_lower_hex(u128::MAX).into_iter().collect();
    assert_eq!(digits, format!("{:x}", u128::MAX));
}

#[test]
fn exe_stems_group_by_lowercase_file_stem() {
    assert_eq!(
        exe_stem("C:\\Program Files\\Microsoft VS Code\\Code.exe"),
        Some(("code".to_string(), "Code".to_string()))
    );
    assert_eq!(exe_stem("/usr/bin/Firefox"), Some(("firefox".to_string(), "Firefox".to_string())));
    assert_eq!(exe_stem("C:\\dir\\"), None);
    assert_eq!(exe_stem(".exe"), None);
    assert_eq!(exe_stem("C:\\Office\\EXCEL.EXE"), Some(("excel".to_string(), "EXCEL".to_string())));
    assert_eq!(exe_stem("tool.Exe"), Some(("tool".to_string(), "tool".to_string())));
    assert_eq!(exe_stem("archive.exe.bak"), Some(("archive.exe.bak".to_string(), "archive.exe.bak".to_string())));
}

#[test]
fn readings_become_apps() {
    let app = current_foreground_app(ForegroundReading::Windows {
        exe_path: Some("C:\\Apps\\Chrome.exe".to_string()),
    })
    .unwrap();
    assert_eq!((app.key.as_str(), app.name.as_str()), ("chrome", "Chrome"));
    assert!(current_foreground_app(ForegroundReading::Windows { exe_path: None }).is_none());

    let app = current_foreground_app(ForegroundReading::Mac {
        name: Some("Safari".to_string()),
        bundle_id: Some("com.apple.Safari".to_string()),
    })
    .unwrap();
    assert_eq!((app.key.as_str(), app.name.as_str()), ("com.apple.safari", "Safari"));
    let app = current_foreground_app(ForegroundReading::Mac { name: Some("Helper".to_string()), bundle_id: None })
        .unwrap();
    assert_eq!(app.key, "helper");
    assert!(current_foreground_app(ForegroundReading::Mac { name: None, bundle_id: Some("x".to_string()) }).is_none());

    let props = "_NET_WM_PID(CARDINAL) = 12345\nWM_CLASS(STRING) = \"code\", \"Code\"\n".to_string();
    let app = current_foreground_app(ForegroundReading::X11 { window_props: Some(props), comm: None }).unwrap();
    assert_eq!((app.key.as_str(), app.name.as_str()), ("code", "Code"));
    let app = current_foreground_app(ForegroundReading::X11 {
        window_props: Some("_NET_WM_PID(CARDINAL) = 1\n".to_string()),
        comm: Some("  bash\n".to_string()),
    })
    .unwrap();
    assert_eq!((app.key.as_str(), app.name.as_str()), ("bash", "bash"));
    assert!(current_foreground_app(ForegroundReading::X11 {
        window_props: Some(String::new()),
        comm: Some("   ".to_string()),
    })
    .is_none());
}

#[test]
fn idle_time_from_tick_counts_wraps() {
    assert_eq!(current_idle_seconds(IdleReading::TickCounts { now_ms: 10_500, last_input_ms: 500 }), Some(10));
    assert_eq!(current_idle_seconds(IdleReading::TickCounts { now_ms: 999, last_input_ms: u32::MAX - 1000 }), Some(2));
    assert_eq!(current_idle_seconds(IdleReading::Seconds(42)), Some(42));
    assert_eq!(current_idle_seconds(IdleReading::Unavailable), None);
}

#[test]
fn sampler_skips_when_tracking_disabled() {
    assert!(!tick_should_record(false, 5, None));
    assert!(!tick_should_record(false, 0, Some(0)));
}

#[test]
fn sampler_skips_idle_users_only_past_threshold() {
    assert!(tick_should_record(true, 5, None));
    assert!(tick_should_record(true, 5, Some(299)));
    assert!(!tick_should_record(true, 5, Some(300)));
    assert!(tick_should_record(true, 0, Some(1_000_000)), "0 disables the idle filter");
    assert!(tick_should_record(true, u64::MAX, Some(u64::MAX)));
    assert_eq!(TICK_INTERVAL_SECS, 15);
}

#[test]
fn foreground_keys_are_lowercased_names() {
    let app = current_foreground_app(ForegroundReading::Windows { exe_path: Some("C:\\Apps\\MyTOOL.EXE".to_string()) }).unwrap();
    assert_eq!((app.key.as_str(), app.name.as_str()), ("mytool", "MyTOOL"));
    assert_eq!(app.key, app.name.to_lowercase());
    assert!(!app.name.is_empty());
}
