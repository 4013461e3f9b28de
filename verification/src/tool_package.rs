//! Importing a tool package: the `tool.json` manifest turned into a custom
//! tool for the registry, with the checks the schema demands and the package's
//! relative script paths anchored to its directory.
//!
//! Reading the manifest from disk and decoding its JSON are the host's part;
//! this module receives the decoded manifest.

use crate::error::AppError;
use crate::text::{chars_of, contains_chars, contains_seq, decimal, decimal_chars, has_char, string_from};
use crate::tools::{
    invalid, invalid_about, invalid_with, HttpToolConfig, LocalToolConfig, ToolConfigInput,
    ToolHeader,
};
use vstd::prelude::*;
use vstd::string::*;

verus! {

/// The manifest file a package directory holds.
pub const TOOL_FILE_NAME: &'static str = "tool.json";

/// How an HTTP tool in a package is called.
#[derive(Debug)]
pub struct PackageHttp {
    pub method: String,
    pub url: String,
    pub headers: Vec<ToolHeader>,
}

/// How a local tool in a package is spawned; paths may be relative to the
/// package directory.
#[derive(Debug)]
pub struct PackageLocal {
    pub command: String,
    pub args: Vec<String>,
    pub cwd: Option<String>,
    pub timeout_secs: Option<u64>,
}

/// A decoded `tool.json`. `parameters` is the JSON Schema text.
#[derive(Debug)]
pub struct ToolPackage {
    pub schema_version: u32,
    pub name: String,
    pub display_name: String,
    pub description: String,
    pub version: Option<String>,
    pub kind: String,
    pub parameters: String,
    pub http: Option<PackageHttp>,
    pub local: Option<PackageLocal>,
    pub permissions: Vec<String>,
    pub enabled: bool,
}

/// A package ready for the registry, with the metadata the registry does not
/// keep.
#[derive(Debug)]
pub struct ImportedPackage {
    pub input: ToolConfigInput,
    pub version: Option<String>,
    pub permissions: Vec<String>,
}

/// A manifest that leaves `enabled` out is enabled.
pub fn default_enabled() -> (r: bool)
    ensures
        r,
{
    true
}

/// The schema versions this importer reads: 1 (HTTP tools) and 2 (adds local
/// tools).
pub open spec fn supported_schema(v: u32) -> bool {
    v == 1 || v == 2
}

/// Whether a command names a file relative to the package rather than a
/// program looked up on `PATH`: it has a separator in it.
pub open spec fn looks_like_path(p: Seq<char>) -> bool {
    p.contains('/') || p.contains('\\') || contains_seq(p, seq!['.', '\\']) || contains_seq(
        p,
        seq!['.', '/'],
    )
}

/// A relative path with neither a root nor a drive or UNC prefix on any
/// platform: it does not start with a separator and holds no `:`.
pub open spec fn plain_relative(p: Seq<char>) -> bool {
    &&& !p.contains(':')
    &&& !(p.len() > 0 && (p[0] == '/' || p[0] == '\\'))
}

/// A directory path that extends plainly on any platform: not empty, no `:`
/// (no drive prefix) and not starting with two separators (no UNC, device or
/// verbatim prefix).
pub open spec fn plain_base(b: Seq<char>) -> bool {
    &&& b.len() > 0
    &&& !b.contains(':')
    &&& !(b.len() >= 2 && (b[0] == '/' || b[0] == '\\') && (b[1] == '/' || b[1] == '\\'))
}

/// A directory rooted on a Windows drive, such as `C:\pkgs` or `D:/tools`: a
/// letter, `:`, a separator, and no other `:`. On Windows it has a drive
/// prefix and a root; elsewhere it is an ordinary relative name. Either way a
/// plain relative path is appended to it.
pub open spec fn drive_root_base(b: Seq<char>) -> bool {
    &&& b.len() >= 3
    &&& (('a' <= b[0] && b[0] <= 'z') || ('A' <= b[0] && b[0] <= 'Z'))
    &&& b[1] == ':'
    &&& (b[2] == '/' || b[2] == '\\')
    &&& !b.subrange(2, b.len() as int).contains(':')
}

/// A package directory onto which relative paths are joined the same way on
/// every platform.
pub open spec fn anchorable_base(b: Seq<char>) -> bool {
    plain_base(b) || drive_root_base(b)
}

/// A path rooted at `/` with no prefix on any platform: it starts with a
/// single `/` (not two separators, which would be a UNC prefix on Windows)
/// and holds no `:`. Absolute on Unix; on Windows rooted on the current
/// drive.
pub open spec fn rooted_path(p: Seq<char>) -> bool {
    &&& p.len() >= 1
    &&& p[0] == '/'
    &&& !(p.len() >= 2 && (p[1] == '/' || p[1] == '\\'))
    &&& !p.contains(':')
}

/// `r` is `p` joined onto `base`: `base`, at most one separator, then `p`.
/// No separator is added after a trailing `/`; one (`/` or `\`) is added
/// after a character that is no separator. After a trailing `\` the platform
/// decides (Windows treats it as a separator, Unix does not).
pub open spec fn joined_onto(base: Seq<char>, p: Seq<char>, r: Seq<char>) -> bool {
    let k = r.len() - base.len() - p.len();
    &&& base.len() + p.len() <= r.len()
    &&& (k == 0 || k == 1)
    &&& r.subrange(0, base.len() as int) == base
    &&& r.subrange(base.len() + k, r.len() as int) == p
    &&& (k == 1 ==> (r[base.len() as int] == '/' || r[base.len() as int] == '\\'))
    &&& (base.len() > 0 && base.last() == '/' ==> k == 0)
    &&& (base.len() > 0 && base.last() != '/' && base.last() != '\\' ==> k == 1)
}

/// `Path::is_absolute`. A path that is absolute on some platform starts with
/// a separator (Unix root, Windows UNC or verbatim prefix) or holds a `:`
/// (Windows drive prefix); so a [`plain_relative`] path is not absolute.
/// Which other paths are absolute depends on the platform and is not stated.
#[verifier::external_body]
fn path_is_absolute(p: &str) -> (r: bool)
    ensures
        plain_relative(p@) ==> !r,
{
    std::path::Path::new(p).is_absolute()
}

/// `Path::join`, rendered with `to_string_lossy` (lossless on text that came
/// from a `&str`). Pushing a relative path without root or prefix onto a
/// directory without prefix, or onto a drive-rooted directory, extends it:
/// the directory, a separator where it does not already end in one, then the
/// path (on Windows the drive-rooted directory keeps its prefix and root; on
/// Unix it is a relative name). Pushing a path with a root and no prefix onto
/// a directory without prefix gives that path (on Unix it is absolute and
/// replaces the directory; on Windows it keeps the directory's prefix, of
/// which there is none). The separator written is the platform's; other
/// inputs follow platform rules and are not stated.
#[verifier::external_body]
fn join_path(base: &str, p: &str) -> (r: String)
    ensures
        anchorable_base(base@) && plain_relative(p@) ==> joined_onto(base@, p@, r@),
        plain_base(base@) && rooted_path(p@) ==> r@ == p@,
{
    std::path::Path::new(base).join(p).to_string_lossy().into_owned()
}

/// What anchoring a command to the package directory `base` gives: a bare
/// program name stays as it is (a `PATH` lookup); a path-like relative
/// reference is joined onto `base`; a path rooted at `/` is kept. (Other
/// absolute commands are kept too; what else is absolute depends on the
/// platform.)
pub open spec fn anchored_command(base: Seq<char>, p: Seq<char>, r: Seq<char>) -> bool {
    &&& !looks_like_path(p) ==> r == p
    &&& looks_like_path(p) && plain_relative(p) && anchorable_base(base) ==> joined_onto(
        base,
        p,
        r,
    )
    &&& rooted_path(p) && plain_base(base) ==> r == p
}

/// What anchoring a working directory to the package directory `base` gives:
/// every relative directory, `.` included, is joined onto `base`; a path
/// rooted at `/` is kept. (Other absolute directories are kept too; what else
/// is absolute depends on the platform.)
pub open spec fn anchored_dir(base: Seq<char>, p: Seq<char>, r: Seq<char>) -> bool {
    &&& plain_relative(p) && anchorable_base(base) ==> joined_onto(base, p, r)
    &&& rooted_path(p) && plain_base(base) ==> r == p
}

/// `p` anchored to the package directory `base`: absolute paths and bare
/// program names are kept as they are; path-like relative references are
/// joined onto `base`.
pub fn resolve_path(p: &str, base: &str) -> (r: String)
    ensures
        anchored_command(base@, p@, r@),
{
    if path_is_absolute(p) {
        return String::from_str(p);
    }
    let v = chars_of(p);
    let mut dot_back: Vec<char> = Vec::new();
    dot_back.push('.');
    dot_back.push('\\');
    let mut dot_slash: Vec<char> = Vec::new();
    dot_slash.push('.');
    dot_slash.push('/');
    assert(dot_back@ =~= seq!['.', '\\']);
    assert(dot_slash@ =~= seq!['.', '/']);
    let path_like = has_char(&v, '/') || has_char(&v, '\\') || contains_chars(&v, &dot_back)
        || contains_chars(&v, &dot_slash);
    if !path_like {
        return String::from_str(p);
    }
    join_path(base, p)
}

/// A working directory anchored to the package directory `base`: absolute
/// directories are kept, every relative one is joined onto `base`.
pub fn resolve_dir(p: &str, base: &str) -> (r: String)
    ensures
        anchored_dir(base@, p@, r@),
{
    if path_is_absolute(p) {
        return String::from_str(p);
    }
    join_path(base, p)
}

/// The local-tool part of an imported package: command and working directory
/// anchored to the package directory `base`, the rest unchanged.
pub open spec fn anchored_local(base: Seq<char>, local: PackageLocal, r: LocalToolConfig) -> bool {
    &&& r.args@ == local.args@
    &&& r.timeout_secs == local.timeout_secs
    &&& anchored_command(base, local.command@, r.command@)
    &&& (r.cwd is Some <==> local.cwd is Some)
    &&& (local.cwd is Some ==> anchored_dir(base, local.cwd->0@, r.cwd->0@))
}

/// The registry form of a package's local tool: command and working
/// directory anchored to the package directory, the rest unchanged.
pub fn resolve_local_config(local: PackageLocal, pkg_dir: &str) -> (r: LocalToolConfig)
    ensures
        anchored_local(pkg_dir@, local, r),
{
    let command = resolve_path(local.command.as_str(), pkg_dir);
    let cwd = match &local.cwd {
        Some(c) => Some(resolve_dir(c.as_str(), pkg_dir)),
        None => None,
    };
    LocalToolConfig { command, args: local.args, cwd, timeout_secs: local.timeout_secs }
}

/// The error for an unsupported schema version.
pub open spec fn schema_message(v: u32) -> Seq<char> {
    "不支持的 schemaVersion: "@ + decimal(v as nat) + "（当前支持 1/2）"@
}

/// The error for a kind other than `http` and `local`.
pub open spec fn kind_message(kind: Seq<char>) -> Seq<char> {
    "当前仅支持 kind=\"http\" 或 kind=\"local\"，包内为 kind=\""@ + kind + "\""@
}

/// Why a package cannot be imported, checked in this order: an unsupported
/// schema version, an HTTP package without its `http` block, a local package
/// under schema 1 or without its `local` block, any other kind.
pub open spec fn package_problem(pkg: ToolPackage) -> Option<Seq<char>> {
    if !supported_schema(pkg.schema_version) {
        Some(schema_message(pkg.schema_version))
    } else if pkg.kind@ == "http"@ {
        if pkg.http is None {
            Some("kind=http 的工具包必须包含 http 字段"@)
        } else {
            None
        }
    } else if pkg.kind@ == "local"@ {
        if pkg.schema_version < 2 {
            Some("kind=local 需要 schemaVersion >= 2"@)
        } else if pkg.local is None {
            Some("kind=local 的工具包必须包含 local 字段"@)
        } else {
            None
        }
    } else {
        Some(kind_message(pkg.kind@))
    }
}

/// What an imported package carries over from its manifest: the descriptive
/// fields, the kind and flags, the schema text, the metadata unchanged; for an
/// HTTP tool its whole `http` block; for a local tool its `local` block with
/// command and working directory anchored to the package directory `pkg_dir`.
pub open spec fn carried_over(pkg: ToolPackage, pkg_dir: Seq<char>, imp: ImportedPackage) -> bool {
    &&& imp.input.name == pkg.name
    &&& imp.input.display_name == pkg.display_name
    &&& imp.input.description == pkg.description
    &&& imp.input.kind == pkg.kind
    &&& imp.input.enabled == pkg.enabled
    &&& imp.input.parameters == pkg.parameters
    &&& imp.version == pkg.version
    &&& imp.permissions == pkg.permissions
    &&& (pkg.kind@ == "http"@ ==> imp.input.local is None && imp.input.http is Some
        && pkg.http is Some && imp.input.http->0.method == pkg.http->0.method
        && imp.input.http->0.url == pkg.http->0.url && imp.input.http->0.headers
        == pkg.http->0.headers)
    &&& (pkg.kind@ == "local"@ ==> imp.input.http is None && imp.input.local is Some
        && pkg.local is Some && anchored_local(pkg_dir, pkg.local->0, imp.input.local->0))
}

/// Turn a decoded manifest into a custom tool for the registry. `pkg_dir` is
/// the directory holding `tool.json`; relative script paths are anchored to it.
pub fn import_package(pkg: ToolPackage, pkg_dir: &str) -> (r: Result<ImportedPackage, AppError>)
    ensures
        match package_problem(pkg) {
            None => r matches Ok(imp) && carried_over(pkg, pkg_dir@, imp),
            Some(m) => r matches Err(AppError::InvalidInput(e)) && e@ == m,
        },
{
    let ghost orig = pkg;
    proof {
        reveal_strlit("http");
        reveal_strlit("local");
        assert("http"@[0] != "local"@[0]);
    }
    if !(pkg.schema_version == 1 || pkg.schema_version == 2) {
        let mut m = String::from_str("不支持的 schemaVersion: ");
        m.append(string_from(decimal_chars(pkg.schema_version as u64).as_slice()).as_str());
        m.append("（当前支持 1/2）");
        return Err(AppError::InvalidInput(m));
    }
    if crate::text::str_eq(pkg.kind.as_str(), "http") {
        let http = match pkg.http {
            None => {
                return Err(invalid("kind=http 的工具包必须包含 http 字段"));
            },
            Some(h) => h,
        };
        let input = ToolConfigInput {
            name: pkg.name,
            display_name: pkg.display_name,
            description: pkg.description,
            kind: pkg.kind,
            enabled: pkg.enabled,
            parameters: pkg.parameters,
            http: Some(HttpToolConfig { method: http.method, url: http.url, headers: http.headers }),
            local: None,
        };
        let imp = ImportedPackage { input, version: pkg.version, permissions: pkg.permissions };
        assert(carried_over(orig, pkg_dir@, imp));
        Ok(imp)
    } else if crate::text::str_eq(pkg.kind.as_str(), "local") {
        if pkg.schema_version < 2 {
            return Err(invalid("kind=local 需要 schemaVersion >= 2"));
        }
        let local = match pkg.local {
            None => {
                return Err(invalid("kind=local 的工具包必须包含 local 字段"));
            },
            Some(l) => l,
        };
        let resolved = resolve_local_config(local, pkg_dir);
        let input = ToolConfigInput {
            name: pkg.name,
            display_name: pkg.display_name,
            description: pkg.description,
            kind: pkg.kind,
            enabled: pkg.enabled,
            parameters: pkg.parameters,
            http: None,
            local: Some(resolved),
        };
        let imp = ImportedPackage { input, version: pkg.version, permissions: pkg.permissions };
        assert(carried_over(orig, pkg_dir@, imp));
        Ok(imp)
    } else {
        Err(invalid_with(
            "当前仅支持 kind=\"http\" 或 kind=\"local\"，包内为 kind=\"",
            pkg.kind.as_str(),
            "\"",
        ))
    }
}

/// Where a package's manifest is, given what the file system says about the
/// path the user picked and about `<path>/tool.json`: the path itself when it
/// is a file, the manifest inside when it is a directory holding one.
/// `path` and `candidate` are the paths as displayed.
pub fn tool_json_location(
    path: &str,
    is_file: bool,
    is_dir: bool,
    candidate: &str,
    candidate_is_file: bool,
) -> (r: Result<String, AppError>)
    ensures
        is_file ==> (r matches Ok(p) && p@ == path@),
        !is_file && is_dir && candidate_is_file ==> (r matches Ok(p) && p@ == candidate@),
        !is_file && is_dir && !candidate_is_file ==> (r matches Err(AppError::InvalidInput(m))
            && m@ == "目录 "@ + path@ + " 中缺少 tool.json"@),
        !is_file && !is_dir ==> (r matches Err(AppError::InvalidInput(m)) && m@
            == "路径不存在或不可读: "@ + path@),
{
    if is_file {
        return Ok(String::from_str(path));
    }
    if is_dir {
        if candidate_is_file {
            return Ok(String::from_str(candidate));
        }
        return Err(invalid_with("目录 ", path, " 中缺少 tool.json"));
    }
    Err(invalid_about("路径不存在或不可读: ", path))
}

} // verus!
