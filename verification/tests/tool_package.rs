use ipet::error::AppError;
use ipet::tool_package::{
    default_enabled, import_package, resolve_dir, resolve_local_config, resolve_path, tool_json_location,
    PackageHttp, PackageLocal, ToolPackage, TOOL_FILE_NAME,
};

fn http_package(version: u32, kind: &str) -> ToolPackage {
    ToolPackage {
        schema_version: version,
        name: "weather_lookup".to_string(),
        display_name: "天气查询".to_string(),
        description: "demo".to_string(),
        version: None,
        kind: kind.to_string(),
        parameters: r#"{"type": "object", "properties": {}}"#.to_string(),
        http: Some(PackageHttp { method: "GET".to_string(), url: "https://example.com/api".to_string(), headers: vec![] }),
        local: None,
        permissions: vec![],
        enabled: default_enabled(),
    }
}

fn local_package(version: u32, local: Option<PackageLocal>) -> ToolPackage {
    ToolPackage {
        schema_version: version,
        name: "echo_local".to_string(),
        display_name: "本地回显".to_string(),
        description: "demo".to_string(),
        version: Some("1.0.0".to_string()),
        kind: "local".to_string(),
        parameters: r#"{"type": "object", "properties": {}}"#.to_string(),
        http: None,
        local,
        permissions: vec!["process".to_string()],
        enabled: true,
    }
}

fn invalid(r: Result<ipet::tool_package::ImportedPackage, AppError>) -> String {
    match r {
        Err(AppError::InvalidInput(m)) => m,
        Err(other) => panic!("unexpected {other:?}"),
        Ok(_) => panic!("package accepted"),
    }
}

#[test]
fn loads_minimal_http_package() {
    let pkg = import_package(http_package(1, "http"), "/pkgs/weather").unwrap();
    assert_eq!(pkg.input.name, "weather_lookup");
    assert!(pkg.input.enabled, "enabled defaults to true");
    assert_eq!(pkg.input.http.as_ref().unwrap().headers.len(), 0);
    assert!(pkg.permissions.is_empty());
    assert!(pkg.input.local.is_none());
}

#[test]
fn accepts_pointing_at_tool_json_directly() {
    let found = tool_json_location("/pkgs/t/tool.json", true, false, "/pkgs/t/tool.json/tool.json", false).unwrap();
    assert_eq!(found, "/pkgs/t/tool.json");
    let found = tool_json_location("/pkgs/t", false, true, "/pkgs/t/tool.json", true).unwrap();
    assert_eq!(found, "/pkgs/t/tool.json");
    assert_eq!(TOOL_FILE_NAME, "tool.json");
}

#[test]
fn rejects_wrong_schema_version() {
    let m = invalid(import_package(http_package(99, "http"), "/p"));
    assert_eq!(m, "不支持的 schemaVersion: 99（当前支持 1/2）");
}

#[test]
fn rejects_non_http_kind() {
    let mut pkg = http_package(1, "rust");
    pkg.http = None;
    let m = invalid(import_package(pkg, "/p"));
    assert_eq!(m, "当前仅支持 kind=\"http\" 或 kind=\"local\"，包内为 kind=\"rust\"");
}

#[test]
fn rejects_missing_tool_json() {
    match tool_json_location("/pkgs/empty", false, true, "/pkgs/empty/tool.json", false) {
        Err(AppError::InvalidInput(m)) => assert_eq!(m, "目录 /pkgs/empty 中缺少 tool.json"),
        other => panic!("{other:?}"),
    }
    match tool_json_location("/nope", false, false, "/nope/tool.json", false) {
        Err(AppError::InvalidInput(m)) => assert_eq!(m, "路径不存在或不可读: /nope"),
        other => panic!("{other:?}"),
    }
}

#[test]
fn http_package_requires_http_block() {
    let mut pkg = http_package(2, "http");
    pkg.http = None;
    assert_eq!(invalid(import_package(pkg, "/p")), "kind=http 的工具包必须包含 http 字段");
}

#[test]
fn loads_local_package_and_resolves_relative_paths() {
    let local = PackageLocal { command: "node".to_string(), args: vec!["echo_tool.js".to_string()], cwd: None, timeout_secs: Some(15) };
    let pkg = import_package(local_package(2, Some(local)), "/pkgs/echo").unwrap();
    assert_eq!(pkg.input.name, "echo_local");
    assert_eq!(pkg.input.kind, "local");
    let local = pkg.input.local.as_ref().expect("local config present");
    assert_eq!(local.command, "node");
    assert_eq!(local.args, vec!["echo_tool.js".to_string()]);
    assert_eq!(local.timeout_secs, Some(15));
    assert!(pkg.input.http.is_none());
    assert_eq!(pkg.version.as_deref(), Some("1.0.0"));
    assert_eq!(pkg.permissions, vec!["process".to_string()]);
}

#[test]
fn local_package_resolves_relative_command_and_cwd_to_package_dir() {
    let local = PackageLocal { command: "./run.sh".to_string(), args: vec![], cwd: Some(".".to_string()), timeout_secs: None };
    let resolved = resolve_local_config(local, "/pkgs/rel");
    assert!(resolved.command.ends_with("run.sh"), "command should be anchored: {}", resolved.command);
    assert!(resolved.command.starts_with("/pkgs/rel"), "command should be anchored: {}", resolved.command);
    let cwd = resolved.cwd.expect("cwd resolved");
    assert!(cwd == "/pkgs/rel/." || cwd == "/pkgs/rel\\.", "a relative cwd is anchored: {cwd}");
}

#[test]
fn resolve_path_keeps_bare_names_and_absolute_paths() {
    assert_eq!(resolve_path("python", "/pkgs/x"), "python");
    assert_eq!(resolve_path("/usr/bin/env", "/pkgs/x"), "/usr/bin/env");
    assert_eq!(resolve_path("scripts/run.sh", "/pkgs/x"), "/pkgs/x/scripts/run.sh");
}

#[test]
fn local_kind_requires_schema_v2() {
    let local = PackageLocal { command: "node".to_string(), args: vec![], cwd: None, timeout_secs: None };
    assert_eq!(invalid(import_package(local_package(1, Some(local)), "/p")), "kind=local 需要 schemaVersion >= 2");
}

#[test]
fn local_kind_requires_local_block() {
    assert_eq!(invalid(import_package(local_package(2, None), "/p")), "kind=local 的工具包必须包含 local 字段");
}

#[test]
fn relative_working_directories_are_anchored() {
    assert_eq!(resolve_dir("/srv/work", "/pkgs/x"), "/srv/work");
    let sub = resolve_dir("data", "/pkgs/x/");
    assert_eq!(sub, "/pkgs/x/data");
    let dot = resolve_dir(".", "/pkgs/x");
    assert!(dot == "/pkgs/x/." || dot == "/pkgs/x\\.", "{dot}");
}

#[test]
fn imported_local_package_anchors_script_and_cwd() {
    let local = PackageLocal {
        command: "./run.sh".to_string(),
        args: vec!["--fast".to_string()],
        cwd: Some("work".to_string()),
        timeout_secs: Some(5),
    };
    let pkg = import_package(local_package(2, Some(local)), "/opt/pkgs/tool").unwrap();
    let local = pkg.input.local.expect("local config");
    assert!(local.command == "/opt/pkgs/tool/./run.sh" || local.command == "/opt/pkgs/tool\\./run.sh", "{}", local.command);
    let cwd = local.cwd.expect("cwd");
    assert!(cwd == "/opt/pkgs/tool/work" || cwd == "/opt/pkgs/tool\\work", "{cwd}");
    assert_eq!(local.args, vec!["--fast".to_string()]);
    assert_eq!(local.timeout_secs, Some(5));
}

#[test]
fn windows_package_directories_anchor_relative_paths() {
    let cmd = resolve_path("scripts\\run.ps1", "C:\\pkgs\\tool");
    assert!(cmd == "C:\\pkgs\\tool\\scripts\\run.ps1" || cmd == "C:\\pkgs\\tool/scripts\\run.ps1", "{cmd}");
    let dir = resolve_dir("work", "D:/tools/x/");
    assert_eq!(dir, "D:/tools/x/work");
    let dot = resolve_dir(".", "C:\\pkgs\\tool");
    assert!(dot == "C:\\pkgs\\tool\\." || dot == "C:\\pkgs\\tool/.", "{dot}");
    assert_eq!(resolve_path("node", "C:\\pkgs\\tool"), "node");
}

#[test]
fn rooted_commands_and_directories_are_kept() {
    assert_eq!(resolve_path("/usr/bin/python3", "/pkgs/x"), "/usr/bin/python3");
    assert_eq!(resolve_dir("/var/data", "/pkgs/x"), "/var/data");
}
