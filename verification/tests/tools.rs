use ipet::tools::ResolvedAddress::{V4, V6};
use ipet::tools::{
    check_body_size, check_resolved_addresses, query_pairs, QueryValue, ResolvedAddress,
    HTTP_TOOL_MAX_BODY_BYTES,
};
use ipet::error::AppError;
use ipet::tools::{
    builtin_tool, check_custom_tool_save, check_tool_deletion, dispatch_route, enabled_tools,
    is_valid_tool_name, process_limit, request_headers, validate_tool_input, validate_url_syntax,
    BuiltinTool, DispatchKind, HttpToolConfig, LocalPathStatus, LocalToolConfig, ToolConfig,
    ToolConfigInput, ToolHeader,
};

fn no_missing_paths() -> LocalPathStatus {
    LocalPathStatus { command_missing: false, cwd_missing: false }
}

fn http_tool_input(name: &str, url: &str) -> ToolConfigInput {
    ToolConfigInput {
        name: name.to_string(),
        display_name: format!("display-{name}"),
        description: "a test tool".to_string(),
        kind: "http".to_string(),
        enabled: true,
        parameters: r#"{"type": "object", "properties": {}}"#.to_string(),
        http: Some(HttpToolConfig { method: "GET".to_string(), url: url.to_string(), headers: vec![] }),
        local: None,
    }
}

fn tool(name: &str, kind: &str, enabled: bool, built_in: bool) -> ToolConfig {
    ToolConfig {
        name: name.to_string(),
        display_name: name.to_string(),
        description: "d".to_string(),
        kind: kind.to_string(),
        enabled,
        built_in,
        parameters: r#"{"type":"object"}"#.to_string(),
        http: None,
        local: None,
        updated_at: "2026-01-01T00:00:00Z".to_string(),
    }
}

fn invalid_message(r: Result<(), AppError>) -> String {
    match r {
        Err(AppError::InvalidInput(m)) => m,
        other => panic!("expected InvalidInput, got {other:?}"),
    }
}

#[test]
fn invalid_tool_name_rejected() {
    assert!(!is_valid_tool_name(""));
    assert!(!is_valid_tool_name("1starts_with_digit"));
    assert!(!is_valid_tool_name("has-dash"));
    assert!(!is_valid_tool_name("has space"));
    assert!(is_valid_tool_name("_ok"));
    assert!(is_valid_tool_name("get_status_v2"));
}

#[test]
fn save_custom_tool_rejects_overriding_builtin() {
    let input = http_tool_input("get_system_status", "https://example.com/x");
    let err = check_custom_tool_save(&input, &no_missing_paths(), true).unwrap_err();
    assert!(matches!(err, AppError::InvalidInput(_)));
    assert!(check_custom_tool_save(&input, &no_missing_paths(), false).is_ok());
}

#[test]
fn save_custom_tool_rejects_disallowed_url() {
    let input = http_tool_input("my_tool", "http://127.0.0.1/admin");
    let err = check_custom_tool_save(&input, &no_missing_paths(), false).unwrap_err();
    assert!(matches!(err, AppError::InvalidInput(_)), "got {err:?}");
}

#[test]
fn local_tool_validation_rejects_empty_command() {
    let input = ToolConfigInput {
        name: "bad_local".to_string(),
        display_name: "Bad".to_string(),
        description: "d".to_string(),
        kind: "local".to_string(),
        enabled: true,
        parameters: r#"{"type": "object"}"#.to_string(),
        http: None,
        local: Some(LocalToolConfig { command: "   ".to_string(), args: vec![], cwd: None, timeout_secs: None }),
    };
    let err = validate_tool_input(&input, &no_missing_paths()).unwrap_err();
    assert!(matches!(err, AppError::InvalidInput(_)));
}

#[test]
fn delete_tool_refuses_to_remove_builtin() {
    let err = check_tool_deletion(true).unwrap_err();
    assert!(matches!(err, AppError::InvalidInput(_)));
    assert!(check_tool_deletion(false).is_ok());
}

#[test]
fn each_validation_error_has_its_message() {
    let mut input = http_tool_input("ok_name", "https://example.com/api");
    assert!(validate_tool_input(&input, &no_missing_paths()).is_ok());

    input.name = "bad name".to_string();
    assert_eq!(
        invalid_message(validate_tool_input(&input, &no_missing_paths())),
        "工具名称只能包含英文字母、数字和下划线，且必须以字母或下划线开头"
    );
    input.name = "ok_name".to_string();

    input.display_name = " ".to_string();
    assert_eq!(invalid_message(validate_tool_input(&input, &no_missing_paths())), "工具显示名不能为空");
    input.display_name = "D".to_string();

    input.description = "".to_string();
    assert_eq!(invalid_message(validate_tool_input(&input, &no_missing_paths())), "工具描述不能为空");
    input.description = "desc".to_string();

    input.parameters = r#"{"type": "array"}"#.to_string();
    assert_eq!(
        invalid_message(validate_tool_input(&input, &no_missing_paths())),
        "工具 parameters 必须是 JSON Schema object"
    );
    input.parameters = r#"{"type": "object"}"#.to_string();

    input.http.as_mut().unwrap().method = "delete".to_string();
    assert_eq!(
        invalid_message(validate_tool_input(&input, &no_missing_paths())),
        "HTTP 工具 method 仅支持 GET/POST/PUT/PATCH"
    );
    input.http.as_mut().unwrap().method = "post".to_string();
    assert!(validate_tool_input(&input, &no_missing_paths()).is_ok());

    input.http = None;
    assert_eq!(invalid_message(validate_tool_input(&input, &no_missing_paths())), "HTTP 工具必须配置 http");

    input.kind = "rust".to_string();
    assert_eq!(
        invalid_message(validate_tool_input(&input, &no_missing_paths())),
        "不支持的工具类型: rust（当前支持 http / local）"
    );
}

#[test]
fn local_paths_that_do_not_exist_are_refused() {
    let mut input = ToolConfigInput {
        name: "loc".to_string(),
        display_name: "L".to_string(),
        description: "d".to_string(),
        kind: "local".to_string(),
        enabled: true,
        parameters: r#"{"type":"object"}"#.to_string(),
        http: None,
        local: Some(LocalToolConfig {
            command: "/opt/none/run".to_string(),
            args: vec![],
            cwd: Some("/opt/none".to_string()),
            timeout_secs: Some(5),
        }),
    };
    let missing_cmd = LocalPathStatus { command_missing: true, cwd_missing: false };
    assert_eq!(
        invalid_message(validate_tool_input(&input, &missing_cmd)),
        "local 工具 command 路径不存在: /opt/none/run"
    );
    let missing_cwd = LocalPathStatus { command_missing: false, cwd_missing: true };
    assert_eq!(invalid_message(validate_tool_input(&input, &missing_cwd)), "local 工具 cwd 路径不存在: /opt/none");
    assert!(validate_tool_input(&input, &no_missing_paths()).is_ok());
    input.local = None;
    assert_eq!(invalid_message(validate_tool_input(&input, &no_missing_paths())), "local 工具必须配置 local");
}

#[test]
fn url_rules() {
    assert!(validate_url_syntax("https://example.com/api").is_ok());
    assert!(validate_url_syntax("http://user@example.com:8080/x?y").is_ok());
    assert_eq!(
        invalid_message(validate_url_syntax("ftp://example.com")),
        "HTTP 工具 URL 必须以 http:// 或 https:// 开头"
    );
    assert_eq!(invalid_message(validate_url_syntax("https:///path")), "HTTP 工具 URL 缺少主机名");
    for bad in [
        "http://localhost/",
        "http://LOCALHOST:80",
        "http://app.localhost/",
        "http://127.0.0.1/admin",
        "http://10.1.2.3/",
        "http://192.168.0.1/",
        "http://172.16.5.5/",
        "http://169.254.169.254/latest",
        "http://0.0.0.0/",
        "http://[::1]/",
        "http://[fe80::1]/",
        "http://[fd00::1]/",
    ] {
        assert_eq!(
            invalid_message(validate_url_syntax(bad)),
            "HTTP 工具 URL 不能指向本机、内网或链路本地地址",
            "{bad}"
        );
    }
    assert!(validate_url_syntax("http://172.32.0.1/").is_ok());
    assert!(validate_url_syntax("http://8.8.8.8/").is_ok());
    assert!(validate_url_syntax("https://fdroid.org/").is_ok());
}

#[test]
fn dispatch_routes_by_kind() {
    let b = tool("get_system_status", "builtin", true, true);
    let h = tool("my_http", "http", true, false);
    assert_eq!(dispatch_route("get_system_status", Some(&b)).unwrap(), DispatchKind::Builtin);
    assert_eq!(dispatch_route("my_http", Some(&h)).unwrap(), DispatchKind::Http);
    match dispatch_route("nope", None) {
        Err(AppError::InvalidInput(m)) => assert_eq!(m, "工具不存在: nope"),
        other => panic!("{other:?}"),
    }
    let off = tool("off", "http", false, false);
    match dispatch_route("off", Some(&off)) {
        Err(AppError::InvalidInput(m)) => assert_eq!(m, "工具未启用: off"),
        other => panic!("{other:?}"),
    }
    let odd = tool("odd", "local", true, false);
    match dispatch_route("odd", Some(&odd)) {
        Err(AppError::InvalidInput(m)) => assert_eq!(m, "不支持的工具类型: local"),
        other => panic!("{other:?}"),
    }
}

#[test]
fn builtin_tools_by_name() {
    assert_eq!(builtin_tool("get_system_status").unwrap(), BuiltinTool::SystemStatus);
    assert_eq!(builtin_tool("scan_disk").unwrap(), BuiltinTool::ScanDisk);
    match builtin_tool("other") {
        Err(AppError::InvalidInput(m)) => assert_eq!(m, "未知内置工具: other"),
        other => panic!("{other:?}"),
    }
}

#[test]
fn process_limit_defaults_and_clamps() {
    assert_eq!(process_limit(None), 10);
    assert_eq!(process_limit(Some(1)), 3);
    assert_eq!(process_limit(Some(17)), 17);
    assert_eq!(process_limit(Some(500)), 30);
}

#[test]
fn headers_are_trimmed_and_blank_keys_dropped() {
    let headers = vec![
        ToolHeader { key: " X-Api ".to_string(), value: " v1 ".to_string() },
        ToolHeader { key: "   ".to_string(), value: "ignored".to_string() },
        ToolHeader { key: "Accept".to_string(), value: "json".to_string() },
    ];
    let sent = request_headers(&headers);
    assert_eq!(
        sent,
        vec![("X-Api".to_string(), "v1".to_string()), ("Accept".to_string(), "json".to_string())]
    );
}

#[test]
fn enabled_tools_keep_registry_order() {
    let tools = vec![
        tool("a", "builtin", true, true),
        tool("b", "http", false, false),
        tool("c", "http", true, false),
    ];
    let names: Vec<String> = enabled_tools(tools).into_iter().map(|t| t.name).collect();
    assert_eq!(names, vec!["a".to_string(), "c".to_string()]);
}

#[test]
fn get_query_pairs_render_members() {
    let pairs = query_pairs(vec![
        ("city".to_string(), QueryValue::Text("杭州".to_string())),
        ("n".to_string(), QueryValue::Json("3".to_string())),
        ("flag".to_string(), QueryValue::Bool(false)),
        ("none".to_string(), QueryValue::Null),
        ("list".to_string(), QueryValue::Json("[1,2]".to_string())),
    ]);
    let got: Vec<(&str, &str)> = pairs.iter().map(|(k, v)| (k.as_str(), v.as_str())).collect();
    assert_eq!(got, vec![("city", "杭州"), ("n", "3"), ("flag", "false"), ("none", ""), ("list", "[1,2]")]);
}

#[test]
fn resolved_addresses_are_checked_before_a_request() {
    assert!(check_resolved_addresses(&vec![V4(93, 184, 216, 34), V6(0x2606, 0x2800, 0x220, 1, 0x248, 0x1893, 0x25c8, 0x1946)]).is_ok());
    assert!(check_resolved_addresses(&vec![]).is_ok());
    for bad in [
        V4(127, 0, 0, 1),
        V4(10, 1, 2, 3),
        V4(172, 20, 0, 1),
        V4(192, 168, 1, 1),
        V4(169, 254, 169, 254),
        V4(100, 64, 0, 1),
        V4(0, 0, 0, 0),
        V6(0, 0, 0, 0, 0, 0, 0, 1),
        V6(0, 0, 0, 0, 0, 0, 0, 0),
        V6(0xfd12, 0, 0, 0, 0, 0, 0, 1),
        V6(0xfe80, 0, 0, 0, 0, 0, 0, 1),
        V6(0, 0, 0, 0, 0, 0xffff, 0x7f00, 0x0001),
    ] {
        assert!(check_resolved_addresses(&vec![V4(8, 8, 8, 8), bad]).is_err(), "{bad:?}");
    }
    assert!(check_resolved_addresses(&vec![V4(100, 128, 0, 1), V6(0, 0, 0, 0, 0, 0xffff, 0x0808, 0x0808)]).is_ok());
    assert!(validate_url_syntax("http://100.64.1.1/x").is_err());
}

#[test]
fn response_bodies_are_capped_at_two_mebibytes() {
    assert!(check_body_size(HTTP_TOOL_MAX_BODY_BYTES).is_ok());
    assert!(check_body_size(HTTP_TOOL_MAX_BODY_BYTES + 1).is_err());
    assert_eq!(HTTP_TOOL_MAX_BODY_BYTES, 2 * 1024 * 1024);
}
