//! Sandboxed code execution for the `code_exec` tool.
//!
//! Each run executes in a restricted subprocess with a wall-clock timeout, a
//! scrubbed environment, resource limits applied via the shell `ulimit`
//! builtin before the guest program starts, a fresh working directory, and
//! best-effort network isolation via `unshare -n`. With
//! [`SandboxMode::Docker`] each snippet runs in an ephemeral container.
//!
//! User code is passed to the guest as a separate argv positional parameter
//! (`$1` / `"$@"`), never interpolated into the wrapper script, so it cannot
//! inject into the sandbox harness.
//!
//! What is run, and what its outcome means, is decided here; the processes
//! are spawned elsewhere.

use vstd::prelude::*;

use crate::error::SkadooshError;
use crate::json::{json_quote, parse_json, parsed, quote_json, Json, JsonTree};
use crate::llm::message::{function_tool, Tool};
use crate::text::{
    decimal, decimal_string, decode_lossy, lowercase, signed_decimal, signed_string, str_eq, strs,
    to_lowercase, utf8_lossy,
};

verus! {

/// The tool name the LLM invokes to run sandboxed code.
pub const CODE_EXEC_TOOL_NAME: &'static str = "code_exec";

/// Default wall-clock timeout (seconds) for a sandboxed run.
pub const DEFAULT_TIMEOUT_SECS: u64 = 30;

/// Sandbox backend used by [`SandboxExecutor`] (`--code-exec-sandbox` /
/// `SKADOOSH_CODE_EXEC_SANDBOX`).
#[derive(Debug, Clone, Copy, PartialEq, Eq, Structural)]
pub enum SandboxMode {
    /// Run in a restricted subprocess on the host (ulimits + scrubbed env +
    /// temp dir + best-effort `unshare -n`).
    Subprocess,
    /// Run inside an ephemeral Docker container (`--network none`).
    Docker,
}

impl Default for SandboxMode {
    fn default() -> (r: Self)
        ensures
            r == SandboxMode::Subprocess,
    {
        SandboxMode::Subprocess
    }
}

/// Which interpreter/runner to use for a `code_exec` call.
#[derive(Debug, Clone, Copy, PartialEq, Eq, Structural)]
pub enum CodeLanguage {
    /// `python3 -c <code>`.
    Python,
    /// `bash -c <code>`.
    Shell,
    /// Run the binary at `code` with the supplied `args`.
    Binary,
}

/// Resource caps applied to each subprocess run. A field of `0` means
/// "unlimited" (the limit is not applied).
#[derive(Debug, Clone, Copy, PartialEq, Eq, Structural)]
pub struct ResourceLimits {
    /// `RLIMIT_CPU`: max CPU seconds (0 = unlimited).
    pub cpu_secs: u64,
    /// `RLIMIT_AS`: max address space in KiB (0 = unlimited).
    pub as_kb: u64,
    /// `RLIMIT_NOFILE`: max open file descriptors (0 = unlimited).
    pub nofile: u64,
}

/// Docker images used per language in [`SandboxMode::Docker`].
#[derive(Debug, Clone)]
pub struct DockerImages {
    /// Image for [`CodeLanguage::Python`].
    pub python: String,
    /// Image for [`CodeLanguage::Shell`].
    pub shell: String,
    /// Image for [`CodeLanguage::Binary`].
    pub binary: String,
}

impl Default for DockerImages {
    fn default() -> (r: Self)
        ensures
            r.python@ == "python:3-slim"@,
            r.shell@ == "bash:latest"@,
            r.binary@ == "ubuntu:22.04"@,
    {
        DockerImages {
            python: "python:3-slim".to_owned(),
            shell: "bash:latest".to_owned(),
            binary: "ubuntu:22.04".to_owned(),
        }
    }
}

/// The image for a language.
pub open spec fn image_for(images: DockerImages, language: CodeLanguage) -> Seq<char> {
    match language {
        CodeLanguage::Python => images.python@,
        CodeLanguage::Shell => images.shell@,
        CodeLanguage::Binary => images.binary@,
    }
}

/// What the model is told about `code_exec`.
pub open spec fn code_exec_description() -> Seq<char> {
    "Execute a short code snippet in a sandboxed subprocess and return its stdout, stderr, and exit code. Use for quick computations, checks, or scripting. Keep snippets short and self-contained; network access is blocked."@
}

/// The JSON schema of the arguments of `code_exec`.
pub open spec fn code_exec_schema() -> Seq<char> {
    "{\"properties\":{\"args\":{\"description\":\"Arguments for the executable; only used when language is 'binary'.\",\"items\":{\"type\":\"string\"},\"type\":\"array\"},\"code\":{\"description\":\"The code to run (python source or shell script), or the executable path when language is 'binary'.\",\"type\":\"string\"},\"language\":{\"description\":\"Runner to use: 'python' (python3 -c), 'shell' (bash -c), or 'binary' (run an executable).\",\"enum\":[\"python\",\"shell\",\"binary\"],\"type\":\"string\"}},\"required\":[\"language\",\"code\"],\"type\":\"object\"}"@
}

/// The tool definition the LLM sees when sandboxed code execution is enabled.
///
/// Arguments the model provides: `{"language": "python", "code":
/// "print('hello')"}`. For `language: "binary"`, `code` is the executable
/// path and the optional `args` array supplies its arguments.
pub fn code_exec_tool_definition() -> (r: Tool)
    ensures
        r@ == function_tool(CODE_EXEC_TOOL_NAME@, code_exec_description(), code_exec_schema()),
{
    Tool::function(
        CODE_EXEC_TOOL_NAME,
        "Execute a short code snippet in a sandboxed subprocess and return its stdout, stderr, and exit code. Use for quick computations, checks, or scripting. Keep snippets short and self-contained; network access is blocked.",
        "{\"properties\":{\"args\":{\"description\":\"Arguments for the executable; only used when language is 'binary'.\",\"items\":{\"type\":\"string\"},\"type\":\"array\"},\"code\":{\"description\":\"The code to run (python source or shell script), or the executable path when language is 'binary'.\",\"type\":\"string\"},\"language\":{\"description\":\"Runner to use: 'python' (python3 -c), 'shell' (bash -c), or 'binary' (run an executable).\",\"enum\":[\"python\",\"shell\",\"binary\"],\"type\":\"string\"}},\"required\":[\"language\",\"code\"],\"type\":\"object\"}".to_owned(),
    )
}

// ---------------------------------------------------------------------------
// Arguments
// ---------------------------------------------------------------------------

/// The language that a lower-case name stands for.
pub open spec fn language_of(lower: Seq<char>) -> Option<CodeLanguage> {
    if lower == "python"@ || lower == "python3"@ || lower == "py"@ {
        Some(CodeLanguage::Python)
    } else if lower == "shell"@ || lower == "bash"@ || lower == "sh"@ {
        Some(CodeLanguage::Shell)
    } else if lower == "binary"@ || lower == "bin"@ || lower == "exec"@ {
        Some(CodeLanguage::Binary)
    } else {
        None
    }
}

/// The language that a lower-case name stands for.
pub fn parse_lower_language(lower: &str) -> (r: Option<CodeLanguage>)
    ensures
        r == language_of(lower@),
{
    if str_eq(lower, "python") || str_eq(lower, "python3") || str_eq(lower, "py") {
        Some(CodeLanguage::Python)
    } else if str_eq(lower, "shell") || str_eq(lower, "bash") || str_eq(lower, "sh") {
        Some(CodeLanguage::Shell)
    } else if str_eq(lower, "binary") || str_eq(lower, "bin") || str_eq(lower, "exec") {
        Some(CodeLanguage::Binary)
    } else {
        None
    }
}

/// The language that a name stands for, in any letter case.
pub fn parse_language(s: &str) -> (r: Option<CodeLanguage>)
    ensures
        r == language_of(lowercase(s@)),
{
    parse_lower_language(to_lowercase(s).as_str())
}

/// The strings among the entries of an array.
pub open spec fn texts_in(list: Seq<JsonTree>) -> Seq<Seq<char>>
    decreases list.len(),
{
    if list.len() == 0 {
        Seq::empty()
    } else {
        match list.last().text() {
            Some(s) => texts_in(list.drop_last()).push(s),
            None => texts_in(list.drop_last()),
        }
    }
}

/// The text under `key`, or `default`.
pub open spec fn text_or(v: JsonTree, key: Seq<char>, default: Seq<char>) -> Seq<char> {
    match v.member_text(key) {
        Some(s) => s,
        None => default,
    }
}

/// The code of a call: for `binary`, a non-empty `command` comes before
/// `code`.
pub open spec fn code_in(v: JsonTree, language: CodeLanguage) -> Seq<char> {
    let code = text_or(v, "code"@, ""@);
    if language == CodeLanguage::Binary {
        match v.member_text("command"@) {
            Some(s) => if s.len() > 0 {
                s
            } else {
                code
            },
            None => code,
        }
    } else {
        code
    }
}

/// The arguments of a call.
pub open spec fn args_in(v: JsonTree) -> Seq<Seq<char>> {
    match v.member("args"@) {
        Some(JsonTree::List(list)) => texts_in(list),
        _ => Seq::empty(),
    }
}

/// The value of parsed arguments; `null` where they are no JSON.
pub open spec fn value_or_null(v: Result<JsonTree, Seq<char>>) -> JsonTree {
    match v {
        Ok(tree) => tree,
        Err(_) => JsonTree::Null,
    }
}

/// The complaint about a language.
pub open spec fn unknown_language(name: Seq<char>) -> Seq<char> {
    "code_exec: unknown language '"@ + name + "' (expected one of: python, shell, binary)"@
}

/// Whether `r` is what a call with the arguments `v` asks for.
pub open spec fn is_call(
    r: Result<(CodeLanguage, String, Vec<String>), SkadooshError>,
    v: JsonTree,
) -> bool {
    let name = text_or(v, "language"@, "python"@);
    match language_of(lowercase(name)) {
        Some(language) => match r {
            Ok((l, code, args)) => l == language && code@ == code_in(v, language) && strs(args@)
                == args_in(v),
            Err(_) => false,
        },
        None => match r {
            Ok(_) => false,
            Err(e) => e.text() == unknown_language(name),
        },
    }
}

fn args_of(v: &Json) -> (r: Vec<String>)
    ensures
        strs(r@) == args_in(v@),
{
    let mut out: Vec<String> = Vec::new();
    assert(strs(out@) =~= Seq::empty());
    match v.get("args") {
        Some(Json::List(list)) => {
            let ghost all = v@.member("args"@)->0->List_0;
            let mut i: usize = 0;
            assert(strs(out@) =~= texts_in(all.take(0)));
            while i < list.len()
                invariant
                    all.len() == list@.len(),
                    forall|k: int| 0 <= k < all.len() ==> #[trigger] all[k] == list@[k]@,
                    i <= list@.len(),
                    strs(out@) == texts_in(all.take(i as int)),
                decreases list@.len() - i,
            {
                assert(all.take(i + 1).drop_last() =~= all.take(i as int));
                assert(all.take(i + 1).last() == list@[i as int]@);
                if let Json::Text(s) = &list[i] {
                    let ghost before = out@;
                    let copy = s.clone();
                    out.push(copy);
                    assert(strs(out@) =~= strs(before).push(copy@));
                }
                i += 1;
            }
            assert(all.take(all.len() as int) =~= all);
        },
        _ => {},
    }
    out
}

fn code_of(v: &Json, language: CodeLanguage) -> (r: String)
    ensures
        r@ == code_in(v@, language),
{
    let code = v.get_text_or("code", "");
    if language == CodeLanguage::Binary {
        match v.get_text("command") {
            Some(s) => {
                if s.as_str().unicode_len() > 0 {
                    return s;
                }
            },
            None => {},
        }
    }
    code
}

/// What a `code_exec` call with parsed arguments asks for.
pub fn code_exec_args_of(v: &Json) -> (r: Result<
    (CodeLanguage, String, Vec<String>),
    SkadooshError,
>)
    ensures
        is_call(r, v@),
{
    let name = v.get_text_or("language", "python");
    match parse_language(name.as_str()) {
        Some(language) => Ok((language, code_of(v, language), args_of(v))),
        None => Err(
            SkadooshError::Other(
                "code_exec: unknown language '".to_owned().concat(name.as_str()).concat(
                    "' (expected one of: python, shell, binary)",
                ),
            ),
        ),
    }
}

/// Parses the `{"language","code","args"}` arguments the model emits for a
/// `code_exec` call. Missing `language` defaults to `python`; missing `code`
/// defaults to the empty string. For `binary`, a `command` field is accepted
/// as an alias for `code`.
pub fn parse_code_exec_args(arguments: &str) -> (r: Result<
    (CodeLanguage, String, Vec<String>),
    SkadooshError,
>)
    ensures
        is_call(r, value_or_null(parsed(arguments@))),
{
    match parse_json(arguments) {
        Ok(v) => code_exec_args_of(&v),
        Err(_) => code_exec_args_of(&Json::Null),
    }
}

// ---------------------------------------------------------------------------
// Limits
// ---------------------------------------------------------------------------

/// A resource with a hard limit.
#[derive(Debug, Clone, Copy, PartialEq, Eq, Structural)]
pub enum Resource {
    /// CPU seconds.
    Cpu,
    /// Bytes of address space.
    AddressSpace,
    /// Open files.
    Files,
}

/// Whether the hard limit of `resource` was read as `limit`.
pub uninterp spec fn limit_read(resource: Resource, limit: Option<u64>) -> bool;

/// Whether `value` is what a hard limit reads where there is none.
pub uninterp spec fn says_no_limit(value: u64) -> bool;

/// `rlimit::Resource::get_hard`: the hard limit that this process inherited,
/// or `None` where it cannot be read. The value depends on the machine; what
/// is claimed is only that it was read as the limit of this resource.
#[verifier::external_body]
fn hard_limit(resource: Resource) -> (r: Option<u64>)
    ensures
        limit_read(resource, r),
{
    let resource = match resource {
        Resource::Cpu => rlimit::Resource::CPU,
        Resource::AddressSpace => rlimit::Resource::AS,
        Resource::Files => rlimit::Resource::NOFILE,
    };
    resource.get_hard().ok()
}

/// `rlimit::INFINITY`: the value of a hard limit that says there is none.
/// Which number that is depends on the platform and is left open.
#[verifier::external_body]
fn no_limit() -> (r: u64)
    ensures
        says_no_limit(r),
{
    rlimit::INFINITY
}

/// The hard limits of the process, as far as they could be read.
#[derive(Debug, Clone, Copy, PartialEq, Eq, Structural)]
pub struct HardLimits {
    /// CPU seconds.
    pub cpu_secs: Option<u64>,
    /// Bytes of address space.
    pub as_bytes: Option<u64>,
    /// Open files.
    pub nofile: Option<u64>,
    /// The value that says there is no limit.
    pub infinity: u64,
}

/// A request under a hard limit that is counted in units of `unit`. A request
/// of zero asks for no limit, which a hard limit cuts too.
pub open spec fn under(request: u64, hard: Option<u64>, infinity: u64, unit: u64) -> u64 {
    match hard {
        Some(h) => if h != infinity && (request == 0 || request > h / unit) {
            h / unit
        } else {
            request
        },
        None => request,
    }
}

/// Whether each of these was read as the hard limit of its own resource.
pub open spec fn are_inherited(hard: HardLimits) -> bool {
    &&& limit_read(Resource::Cpu, hard.cpu_secs)
    &&& limit_read(Resource::AddressSpace, hard.as_bytes)
    &&& limit_read(Resource::Files, hard.nofile)
    &&& says_no_limit(hard.infinity)
}

/// The requested limits under the hard ones; where a hard limit could not be
/// read, the request stands.
pub open spec fn clamped(limits: ResourceLimits, hard: HardLimits) -> ResourceLimits {
    ResourceLimits {
        cpu_secs: under(limits.cpu_secs, hard.cpu_secs, hard.infinity, 1),
        as_kb: under(limits.as_kb, hard.as_bytes, hard.infinity, 1024),
        nofile: under(limits.nofile, hard.nofile, hard.infinity, 1),
    }
}

/// The exec form of `under`.
fn clamp(request: u64, hard: Option<u64>, infinity: u64, unit: u64) -> (r: u64)
    requires
        unit > 0,
    ensures
        r == under(request, hard, infinity, unit),
{
    match hard {
        Some(h) => if h != infinity && (request == 0 || request > h / unit) {
            h / unit
        } else {
            request
        },
        None => request,
    }
}

/// Clamps the requested limits to the hard ceilings, so the child's `ulimit`
/// calls never try to raise a limit above the hard maximum (which would fail
/// and abort the run).
pub fn clamp_to_hard_limits(limits: &mut ResourceLimits, hard: &HardLimits)
    ensures
        *final(limits) == clamped(*old(limits), *hard),
{
    limits.cpu_secs = clamp(limits.cpu_secs, hard.cpu_secs, hard.infinity, 1);
    limits.as_kb = clamp(limits.as_kb, hard.as_bytes, hard.infinity, 1024);
    limits.nofile = clamp(limits.nofile, hard.nofile, hard.infinity, 1);
}

/// Whether `after` asks for no more than `before`; zero asks for no limit.
pub open spec fn asks_no_more(after: u64, before: u64) -> bool {
    before == 0 || 0 < after <= before
}

/// Whether a request, counted in units of `unit`, asks for something that a
/// hard limit allows.
pub open spec fn is_allowed(request: u64, hard: Option<u64>, infinity: u64, unit: u64) -> bool {
    hard matches Some(h) ==> h != infinity ==> 0 < request && request * unit <= h
}

/// Whether a hard limit leaves room for one unit. A smaller one has no request
/// that would stand for it, as zero asks for no limit.
pub open spec fn leaves_room(hard: Option<u64>, infinity: u64, unit: u64) -> bool {
    hard matches Some(h) ==> h != infinity ==> h >= unit
}

/// Clamped limits are never above the hard ones, nor above what was asked for;
/// a request for no limit becomes the hard limit.
pub proof fn law_clamping_lowers(limits: ResourceLimits, hard: HardLimits)
    requires
        leaves_room(hard.cpu_secs, hard.infinity, 1),
        leaves_room(hard.as_bytes, hard.infinity, 1024),
        leaves_room(hard.nofile, hard.infinity, 1),
    ensures
        asks_no_more(clamped(limits, hard).cpu_secs, limits.cpu_secs),
        asks_no_more(clamped(limits, hard).as_kb, limits.as_kb),
        asks_no_more(clamped(limits, hard).nofile, limits.nofile),
        is_allowed(clamped(limits, hard).cpu_secs, hard.cpu_secs, hard.infinity, 1),
        is_allowed(clamped(limits, hard).as_kb, hard.as_bytes, hard.infinity, 1024),
        is_allowed(clamped(limits, hard).nofile, hard.nofile, hard.infinity, 1),
{
}

// ---------------------------------------------------------------------------
// Commands
// ---------------------------------------------------------------------------

/// A limit value: `0` becomes `unlimited` (bash's ulimit accepts it).
pub open spec fn limit_text(n: u64) -> Seq<char> {
    if n == 0 {
        "unlimited"@
    } else {
        decimal(n as nat)
    }
}

/// Formats a limit value: `0` becomes `unlimited` (bash's ulimit accepts it).
pub fn fmt_limit(n: u64) -> (r: String)
    ensures
        r@ == limit_text(n),
{
    if n == 0 {
        "unlimited".to_owned()
    } else {
        decimal_string(n)
    }
}

/// The `ulimit -t …; ulimit -v …; ulimit -n …` prefix applied before `exec`.
pub open spec fn ulimits(limits: ResourceLimits) -> Seq<char> {
    "ulimit -t "@ + limit_text(limits.cpu_secs) + "; ulimit -v "@ + limit_text(limits.as_kb)
        + "; ulimit -n "@ + limit_text(limits.nofile)
}

/// The `ulimit -t …; ulimit -v …; ulimit -n …` prefix applied before `exec`.
pub fn ulimit_prefix(limits: ResourceLimits) -> (r: String)
    ensures
        r@ == ulimits(limits),
{
    "ulimit -t ".to_owned().concat(fmt_limit(limits.cpu_secs).as_str()).concat(
        "; ulimit -v ",
    ).concat(fmt_limit(limits.as_kb).as_str()).concat("; ulimit -n ").concat(
        fmt_limit(limits.nofile).as_str(),
    )
}

/// How the wrapper script starts the guest: it names the code only as a
/// positional parameter.
pub open spec fn exec_tail(language: CodeLanguage) -> Seq<char> {
    match language {
        CodeLanguage::Python => "exec python3 -c \"$1\""@,
        CodeLanguage::Shell => "exec bash -c \"$1\""@,
        CodeLanguage::Binary => "exec \"$@\""@,
    }
}

/// The wrapper script.
pub open spec fn wrapper_script(limits: ResourceLimits, language: CodeLanguage) -> Seq<char> {
    ulimits(limits) + "; "@ + exec_tail(language)
}

/// What stands behind the wrapper script: `$0`, the code, and for a binary its
/// arguments.
pub open spec fn positionals(
    language: CodeLanguage,
    code: Seq<char>,
    args: Seq<Seq<char>>,
) -> Seq<Seq<char>> {
    seq!["skadoosh"@, code] + if language == CodeLanguage::Binary {
        args
    } else {
        Seq::empty()
    }
}

/// The command of a subprocess run.
pub open spec fn subprocess_argv(
    unshare: bool,
    limits: ResourceLimits,
    language: CodeLanguage,
    code: Seq<char>,
    args: Seq<Seq<char>>,
) -> Seq<Seq<char>> {
    (if unshare {
        seq!["unshare"@, "-n"@]
    } else {
        Seq::empty()
    }) + seq!["bash"@, "-c"@, wrapper_script(limits, language)] + positionals(language, code, args)
}

fn push_text(argv: &mut Vec<String>, s: &str)
    ensures
        strs(final(argv)@) == strs(old(argv)@).push(s@),
{
    let ghost before = argv@;
    let copy = s.to_owned();
    argv.push(copy);
    assert(strs(argv@) =~= strs(before).push(copy@));
}

fn push_texts(argv: &mut Vec<String>, more: &Vec<String>)
    ensures
        strs(final(argv)@) == strs(old(argv)@) + strs(more@),
{
    let ghost before = strs(argv@);
    let ghost all = strs(more@);
    let mut i: usize = 0;
    assert(strs(argv@) =~= before + all.take(0));
    while i < more.len()
        invariant
            all == strs(more@),
            i <= more@.len(),
            strs(argv@) == before + all.take(i as int),
        decreases more@.len() - i,
    {
        push_text(argv, more[i].as_str());
        assert(before + all.take(i + 1) =~= (before + all.take(i as int)).push(all[i as int]));
        i += 1;
    }
    assert(all.take(all.len() as int) =~= all);
}

/// Builds the subprocess argv without spawning.
///
/// The guest is launched through a `bash -c '<ulimits>; exec …'` wrapper: the
/// ulimit caps take effect before the guest starts, and the user code is
/// passed as a separate positional parameter (`$1` / `"$@"`) so it can never
/// inject into the wrapper script. When `unshare` is true the whole command
/// is prefixed with `unshare -n` for network isolation.
pub fn build_subprocess_argv(
    unshare: bool,
    limits: ResourceLimits,
    language: CodeLanguage,
    code: &str,
    args: &Vec<String>,
) -> (r: Vec<String>)
    ensures
        strs(r@) == subprocess_argv(unshare, limits, language, code@, strs(args@)),
{
    let mut argv: Vec<String> = Vec::new();
    assert(strs(argv@) =~= Seq::empty());
    if unshare {
        push_text(&mut argv, "unshare");
        push_text(&mut argv, "-n");
    }
    let tail: &str = match language {
        CodeLanguage::Python => "exec python3 -c \"$1\"",
        CodeLanguage::Shell => "exec bash -c \"$1\"",
        CodeLanguage::Binary => "exec \"$@\"",
    };
    let script = ulimit_prefix(limits).concat("; ").concat(tail);
    push_text(&mut argv, "bash");
    push_text(&mut argv, "-c");
    push_text(&mut argv, script.as_str());
    push_text(&mut argv, "skadoosh");
    push_text(&mut argv, code);
    if language == CodeLanguage::Binary {
        push_texts(&mut argv, args);
    }
    assert(strs(argv@) =~= subprocess_argv(unshare, limits, language, code@, strs(args@)));
    argv
}

/// The script that the shell interprets does not depend on the code or its
/// arguments: whatever they are, it is the same, and they stand behind it.
pub proof fn law_code_is_never_interpolated(
    unshare: bool,
    limits: ResourceLimits,
    language: CodeLanguage,
    code: Seq<char>,
    args: Seq<Seq<char>>,
    other_code: Seq<char>,
    other_args: Seq<Seq<char>>,
)
    ensures
        ({
            let n = if unshare {
                6int
            } else {
                4int
            };
            let a = subprocess_argv(unshare, limits, language, code, args);
            let b = subprocess_argv(unshare, limits, language, other_code, other_args);
            &&& a.take(n) == b.take(n)
            &&& a[n - 2] == wrapper_script(limits, language)
            &&& a[n] == code
            &&& a.skip(n + 1) == if language == CodeLanguage::Binary {
                args
            } else {
                Seq::empty()
            }
        }),
{
    let n = if unshare {
        6int
    } else {
        4int
    };
    let a = subprocess_argv(unshare, limits, language, code, args);
    let b = subprocess_argv(unshare, limits, language, other_code, other_args);
    assert(a.take(n) =~= b.take(n));
    assert(a.skip(n + 1) =~= if language == CodeLanguage::Binary {
        args
    } else {
        Seq::empty()
    });
}

/// A `--ulimit name=value` pair, only when the value is non-zero.
pub open spec fn ulimit_pair(name: Seq<char>, val: u64) -> Seq<Seq<char>> {
    if val > 0 {
        seq!["--ulimit"@, name + "="@ + decimal(val as nat)]
    } else {
        Seq::empty()
    }
}

/// Pushes a `--ulimit name=value` pair only when the value is non-zero.
fn push_ulimit(argv: &mut Vec<String>, name: &str, val: u64)
    ensures
        strs(final(argv)@) == strs(old(argv)@) + ulimit_pair(name@, val),
{
    let ghost before = strs(argv@);
    if val > 0 {
        push_text(argv, "--ulimit");
        push_text(argv, name.to_owned().concat("=").concat(decimal_string(val).as_str()).as_str());
    }
    assert(strs(argv@) =~= before + ulimit_pair(name@, val));
}

/// How a container runs the code.
pub open spec fn guest_argv(
    language: CodeLanguage,
    code: Seq<char>,
    args: Seq<Seq<char>>,
) -> Seq<Seq<char>> {
    match language {
        CodeLanguage::Python => seq!["python3"@, "-c"@, code],
        CodeLanguage::Shell => seq!["bash"@, "-c"@, code],
        CodeLanguage::Binary => seq![code] + args,
    }
}

/// The options of a container: no network, a read-only root, no capabilities,
/// and the limits.
pub open spec fn container_options(limits: ResourceLimits, workdir: Seq<char>) -> Seq<Seq<char>> {
    seq![
        "docker"@,
        "run"@,
        "--rm"@,
        "--network"@,
        "none"@,
        "--read-only"@,
        "--cap-drop=ALL"@,
        "--security-opt"@,
        "no-new-privileges"@,
        "--cpus"@,
        "1"@,
    ] + (if limits.as_kb > 0 {
        seq!["--memory"@, decimal((limits.as_kb / 1024) as nat) + "m"@]
    } else {
        Seq::empty()
    }) + ulimit_pair("nofile"@, limits.nofile) + ulimit_pair("cpu"@, limits.cpu_secs)
        + ulimit_pair("as"@, limits.as_kb) + seq!["-v"@, workdir + ":/work"@, "-w"@, "/work"@]
}

fn container_argv(limits: &ResourceLimits, workdir: &str) -> (r: Vec<String>)
    ensures
        strs(r@) == container_options(*limits, workdir@),
{
    let mut argv: Vec<String> = Vec::new();
    assert(strs(argv@) =~= Seq::empty());
    push_text(&mut argv, "docker");
    push_text(&mut argv, "run");
    push_text(&mut argv, "--rm");
    push_text(&mut argv, "--network");
    push_text(&mut argv, "none");
    push_text(&mut argv, "--read-only");
    push_text(&mut argv, "--cap-drop=ALL");
    push_text(&mut argv, "--security-opt");
    push_text(&mut argv, "no-new-privileges");
    push_text(&mut argv, "--cpus");
    push_text(&mut argv, "1");
    if limits.as_kb > 0 {
        push_text(&mut argv, "--memory");
        push_text(&mut argv, decimal_string(limits.as_kb / 1024).concat("m").as_str());
    }
    push_ulimit(&mut argv, "nofile", limits.nofile);
    push_ulimit(&mut argv, "cpu", limits.cpu_secs);
    push_ulimit(&mut argv, "as", limits.as_kb);
    push_text(&mut argv, "-v");
    push_text(&mut argv, workdir.to_owned().concat(":/work").as_str());
    push_text(&mut argv, "-w");
    push_text(&mut argv, "/work");
    assert(strs(argv@) =~= container_options(*limits, workdir@));
    argv
}

/// `timeout` in front of a subprocess command, so the child is reliably
/// killed on expiry.
pub open spec fn subprocess_timeout(secs: u64) -> Seq<Seq<char>> {
    if secs > 0 {
        seq!["timeout"@, "--kill-after"@, "5"@, decimal(secs as nat)]
    } else {
        Seq::empty()
    }
}

/// `timeout` in front of a container command, so the container is stopped
/// and auto-removed on expiry.
pub open spec fn docker_timeout(secs: u64) -> Seq<Seq<char>> {
    if secs > 0 {
        seq!["timeout"@, "-s"@, "TERM"@, "--kill-after"@, "10"@, decimal(secs as nat)]
    } else {
        Seq::empty()
    }
}

// ---------------------------------------------------------------------------
// Outcomes
// ---------------------------------------------------------------------------

/// The exit code that `timeout(1)` reports when it kills the command.
pub const TIMEOUT_EXIT: i32 = 124;

/// `true` or `false`.
pub open spec fn bool_text(b: bool) -> Seq<char> {
    if b {
        "true"@
    } else {
        "false"@
    }
}

/// An exit code in JSON.
pub open spec fn exit_text(code: Option<i32>) -> Seq<char> {
    match code {
        Some(n) => signed_decimal(n as int),
        None => "null"@,
    }
}

/// The JSON result of a run. On timeout the conventional exit code `124` is
/// reported (mirroring the `timeout(1)` command).
pub open spec fn result_json(
    stdout: Seq<u8>,
    stderr: Seq<u8>,
    exit_code: Option<i32>,
    timed_out: bool,
) -> Seq<char> {
    "{\"stdout\":"@ + json_quote(utf8_lossy(stdout)) + ",\"stderr\":"@ + json_quote(
        utf8_lossy(stderr),
    ) + ",\"exit_code\":"@ + exit_text(
        if timed_out {
            Some(TIMEOUT_EXIT)
        } else {
            exit_code
        },
    ) + ",\"timed_out\":"@ + bool_text(timed_out) + "}"@
}

/// Serializes the run outcome to the JSON string returned to the tool caller.
pub fn format_result(
    stdout: &Vec<u8>,
    stderr: &Vec<u8>,
    exit_code: Option<i32>,
    timed_out: bool,
) -> (r: String)
    ensures
        r@ == result_json(stdout@, stderr@, exit_code, timed_out),
{
    let code: Option<i32> = if timed_out {
        Some(TIMEOUT_EXIT)
    } else {
        exit_code
    };
    let code_text = match code {
        Some(n) => signed_string(n as i64),
        None => "null".to_owned(),
    };
    let flag: &str = if timed_out {
        "true"
    } else {
        "false"
    };
    let out = quote_json(decode_lossy(stdout.as_slice()).as_str());
    let err = quote_json(decode_lossy(stderr.as_slice()).as_str());
    "{\"stdout\":".to_owned().concat(out.as_str()).concat(",\"stderr\":").concat(
        err.as_str(),
    ).concat(",\"exit_code\":").concat(code_text.as_str()).concat(",\"timed_out\":").concat(
        flag,
    ).concat("}")
}

/// Whether a run timed out: the watchdog killed it, or `timeout(1)` did.
pub open spec fn has_timed_out(mode: SandboxMode, exit_code: Option<i32>, killed: bool) -> bool {
    exit_code == Some(TIMEOUT_EXIT) || (mode == SandboxMode::Subprocess && killed)
}

/// The state of a child process when it was asked.
#[derive(Debug, Clone, Copy, PartialEq, Eq, Structural)]
pub enum ChildState {
    /// It has exited.
    Exited,
    /// It is running.
    Running,
    /// It cannot be told.
    Unknown,
}

/// What to do next while waiting for a child process.
#[derive(Debug, Clone, Copy, PartialEq, Eq, Structural)]
pub enum WaitStep {
    /// Stop waiting: it has exited, or cannot be waited for.
    Stop,
    /// Kill it and its process group, then reap it.
    Kill,
    /// Ask again a little later.
    Poll,
}

/// What to do while waiting for a child process, where `elapsed` whole seconds
/// have gone by. A `timeout_secs` of `0` waits forever. A natural exit takes
/// priority over the deadline.
pub fn wait_with_timeout(state: ChildState, elapsed: u64, timeout_secs: u64) -> (r: WaitStep)
    ensures
        r == (if state != ChildState::Running {
            WaitStep::Stop
        } else if timeout_secs > 0 && elapsed >= timeout_secs {
            WaitStep::Kill
        } else {
            WaitStep::Poll
        }),
{
    match state {
        ChildState::Running => {
            if timeout_secs > 0 && elapsed >= timeout_secs {
                WaitStep::Kill
            } else {
                WaitStep::Poll
            }
        },
        _ => WaitStep::Stop,
    }
}

/// Variables by their texts.
pub open spec fn env_pairs(v: Seq<(String, String)>) -> Seq<(Seq<char>, Seq<char>)> {
    v.map_values(|e: (String, String)| (e.0@, e.1@))
}

/// The text of an optional variable.
pub open spec fn opt_text(v: Option<&str>) -> Option<Seq<char>> {
    match v {
        Some(s) => Some(s@),
        None => None,
    }
}

/// The whole environment of a guest: `PATH` and `HOME` (with `USERPROFILE` as
/// a fallback) as far as they are set, and `TMPDIR`.
pub open spec fn scrubbed(
    path: Option<Seq<char>>,
    home: Option<Seq<char>>,
    profile: Option<Seq<char>>,
    workdir: Seq<char>,
) -> Seq<(Seq<char>, Seq<char>)> {
    (match path {
        Some(p) => seq![("PATH"@, p)],
        None => Seq::empty(),
    }) + (match home {
        Some(h) => seq![("HOME"@, h)],
        None => match profile {
            Some(p) => seq![("HOME"@, p)],
            None => Seq::empty(),
        },
    }) + seq![("TMPDIR"@, workdir)]
}

fn push_env(env: &mut Vec<(String, String)>, name: &str, value: &str)
    ensures
        env_pairs(final(env)@) == env_pairs(old(env)@).push((name@, value@)),
{
    let ghost before = env@;
    env.push((name.to_owned(), value.to_owned()));
    assert(env_pairs(env@) =~= env_pairs(before).push((name@, value@)));
}

/// The environment of a guest: everything is cleared but `PATH` and `HOME`,
/// and `TMPDIR` points at the sandbox working directory so guest temp files
/// are cleaned up with it.
pub fn scrub_env(
    path: Option<&str>,
    home: Option<&str>,
    profile: Option<&str>,
    workdir: &str,
) -> (r: Vec<(String, String)>)
    ensures
        env_pairs(r@) == scrubbed(opt_text(path), opt_text(home), opt_text(profile), workdir@),
{
    let mut env: Vec<(String, String)> = Vec::new();
    assert(env_pairs(env@) =~= Seq::empty());
    if let Some(p) = path {
        push_env(&mut env, "PATH", p);
    }
    if let Some(h) = home {
        push_env(&mut env, "HOME", h);
    } else if let Some(p) = profile {
        push_env(&mut env, "HOME", p);
    }
    push_env(&mut env, "TMPDIR", workdir);
    assert(env_pairs(env@) =~= scrubbed(
        opt_text(path),
        opt_text(home),
        opt_text(profile),
        workdir@,
    ));
    env
}

/// The name of a fresh working directory: that of the process, a counter and
/// the time keep two apart.
pub fn temp_dir_name(pid: u32, n: u64, nanos: u64) -> (r: String)
    ensures
        r@ == "skadoosh-sandbox-"@ + decimal(pid as nat) + "-"@ + decimal(n as nat) + "-"@
            + decimal(nanos as nat),
{
    "skadoosh-sandbox-".to_owned().concat(decimal_string(pid as u64).as_str()).concat("-").concat(
        decimal_string(n).as_str(),
    ).concat("-").concat(decimal_string(nanos).as_str())
}

// ---------------------------------------------------------------------------
// The executor
// ---------------------------------------------------------------------------

/// What a probe of the host found.
#[derive(Debug, Clone, Copy, PartialEq, Eq, Structural)]
pub struct HostProbes {
    /// `unshare -n` (a new network namespace) is usable.
    pub unshare: bool,
    /// A Docker daemon is reachable. Probed in Docker mode only.
    pub docker: bool,
}

/// Sandboxed code executor.
#[derive(Debug, Clone)]
pub struct SandboxExecutor {
    /// Wall-clock timeout (seconds); zero for none.
    pub timeout_secs: u64,
    /// The backend.
    pub mode: SandboxMode,
    /// The resource caps.
    pub limits: ResourceLimits,
    /// Whether network isolation is wanted.
    pub network_isolated: bool,
    /// Whether `unshare -n` was available at construction time.
    pub unshare_available: bool,
    /// Whether a Docker daemon was reachable at construction time.
    pub docker_available: bool,
    /// The images of Docker mode.
    pub docker_images: DockerImages,
}

/// The limits of a run before they are clamped: CPU = `timeout_secs`, address
/// space = 1 GiB, open files = 256.
pub open spec fn default_limits(timeout_secs: u64) -> ResourceLimits {
    ResourceLimits { cpu_secs: timeout_secs, as_kb: 1_048_576, nofile: 256 }
}

/// Whether `r` is a fresh executor with the default images.
pub open spec fn is_fresh(
    r: SandboxExecutor,
    timeout_secs: u64,
    mode: SandboxMode,
    probes: HostProbes,
) -> bool {
    &&& r.timeout_secs == timeout_secs
    &&& r.mode == mode
    &&& r.network_isolated
    &&& r.unshare_available == probes.unshare
    &&& r.docker_available == (mode == SandboxMode::Docker && probes.docker)
    &&& r.docker_images.python@ == "python:3-slim"@
    &&& r.docker_images.shell@ == "bash:latest"@
    &&& r.docker_images.binary@ == "ubuntu:22.04"@
}

impl SandboxExecutor {
    /// Creates a new executor with the given wall-clock timeout and backend.
    ///
    /// Resource limits default to CPU = `timeout_secs`, address space = 1
    /// GiB, open files = 256 (clamped to the inherited hard ceilings);
    /// override with [`Self::with_limits`].
    pub fn new(timeout_secs: u64, mode: SandboxMode, probes: HostProbes) -> (r: Self)
        ensures
            is_fresh(r, timeout_secs, mode, probes),
            exists|hard: HardLimits| #[trigger]
                are_inherited(hard) && r.limits == clamped(default_limits(timeout_secs), hard),
    {
        let hard = HardLimits {
            cpu_secs: hard_limit(Resource::Cpu),
            as_bytes: hard_limit(Resource::AddressSpace),
            nofile: hard_limit(Resource::Files),
            infinity: no_limit(),
        };
        assert(are_inherited(hard));
        Self::with_hard_limits(timeout_secs, mode, probes, &hard)
    }

    /// Creates a new executor on a machine with the given hard limits.
    pub fn with_hard_limits(
        timeout_secs: u64,
        mode: SandboxMode,
        probes: HostProbes,
        hard: &HardLimits,
    ) -> (r: Self)
        ensures
            is_fresh(r, timeout_secs, mode, probes),
            r.limits == clamped(default_limits(timeout_secs), *hard),
    {
        let mut limits = ResourceLimits { cpu_secs: timeout_secs, as_kb: 1_048_576, nofile: 256 };
        clamp_to_hard_limits(&mut limits, hard);
        SandboxExecutor {
            timeout_secs,
            mode,
            limits,
            network_isolated: true,
            unshare_available: probes.unshare,
            docker_available: mode == SandboxMode::Docker && probes.docker,
            docker_images: DockerImages::default(),
        }
    }

    /// Overrides the resource limits.
    pub fn with_limits(self, limits: ResourceLimits) -> (r: Self)
        ensures
            r == (SandboxExecutor { limits, ..self }),
    {
        SandboxExecutor { limits, ..self }
    }

    /// Enables/disables best-effort network isolation (`unshare -n`). Default
    /// is enabled; when disabled the `unshare` prefix is skipped entirely.
    pub fn with_network_isolated(self, isolated: bool) -> (r: Self)
        ensures
            r == (SandboxExecutor { network_isolated: isolated, ..self }),
    {
        SandboxExecutor { network_isolated: isolated, ..self }
    }

    /// Overrides the Docker images used per language (Docker mode only).
    pub fn with_docker_images(self, images: DockerImages) -> (r: Self)
        ensures
            r == (SandboxExecutor { docker_images: images, ..self }),
    {
        SandboxExecutor { docker_images: images, ..self }
    }

    /// The configured wall-clock timeout (seconds).
    pub fn timeout_secs(&self) -> (r: u64)
        ensures
            r == self.timeout_secs,
    {
        self.timeout_secs
    }

    /// The configured sandbox backend.
    pub fn mode(&self) -> (r: SandboxMode)
        ensures
            r == self.mode,
    {
        self.mode
    }

    /// Whether `unshare -n` was available at construction time.
    pub fn unshare_available(&self) -> (r: bool)
        ensures
            r == self.unshare_available,
    {
        self.unshare_available
    }

    /// Builds the subprocess argv for a run.
    pub fn build_argv(&self, language: CodeLanguage, code: &str, args: &Vec<String>) -> (r: Vec<
        String,
    >)
        ensures
            strs(r@) == subprocess_argv(
                self.network_isolated && self.unshare_available,
                self.limits,
                language,
                code@,
                strs(args@),
            ),
    {
        build_subprocess_argv(
            self.network_isolated && self.unshare_available,
            self.limits,
            language,
            code,
            args,
        )
    }

    /// The command of a subprocess run, under `timeout`.
    pub fn run_subprocess(&self, language: CodeLanguage, code: &str, args: &Vec<String>) -> (r:
        Vec<String>)
        ensures
            strs(r@) == subprocess_timeout(self.timeout_secs) + subprocess_argv(
                self.network_isolated && self.unshare_available,
                self.limits,
                language,
                code@,
                strs(args@),
            ),
    {
        let argv = self.build_argv(language, code, args);
        let mut wrapped: Vec<String> = Vec::new();
        assert(strs(wrapped@) =~= Seq::empty());
        if self.timeout_secs > 0 {
            push_text(&mut wrapped, "timeout");
            push_text(&mut wrapped, "--kill-after");
            push_text(&mut wrapped, "5");
            push_text(&mut wrapped, decimal_string(self.timeout_secs).as_str());
        }
        assert(strs(wrapped@) =~= subprocess_timeout(self.timeout_secs));
        push_texts(&mut wrapped, &argv);
        wrapped
    }

    /// The command of a container run in the working directory `workdir`,
    /// under `timeout`; an error where there is no Docker daemon.
    pub fn run_docker(
        &self,
        workdir: &str,
        language: CodeLanguage,
        code: &str,
        args: &Vec<String>,
    ) -> (r: Result<Vec<String>, SkadooshError>)
        ensures
            match r {
                Ok(argv) => self.docker_available && strs(argv@) == docker_timeout(
                    self.timeout_secs,
                ) + container_options(self.limits, workdir@) + seq![
                    image_for(self.docker_images, language),
                ] + guest_argv(language, code@, strs(args@)),
                Err(e) => !self.docker_available && e.text()
                    == "code_exec: Docker sandbox requested but the Docker daemon is not available"@,
            },
    {
        if !self.docker_available {
            return Err(
                SkadooshError::Other(
                    "code_exec: Docker sandbox requested but the Docker daemon is not available".to_owned(),
                ),
            );
        }
        let mut argv: Vec<String> = Vec::new();
        assert(strs(argv@) =~= Seq::empty());
        if self.timeout_secs > 0 {
            push_text(&mut argv, "timeout");
            push_text(&mut argv, "-s");
            push_text(&mut argv, "TERM");
            push_text(&mut argv, "--kill-after");
            push_text(&mut argv, "10");
            push_text(&mut argv, decimal_string(self.timeout_secs).as_str());
        }
        assert(strs(argv@) =~= docker_timeout(self.timeout_secs));
        push_texts(&mut argv, &container_argv(&self.limits, workdir));
        let ghost options = strs(argv@);
        let image: &str = match language {
            CodeLanguage::Python => self.docker_images.python.as_str(),
            CodeLanguage::Shell => self.docker_images.shell.as_str(),
            CodeLanguage::Binary => self.docker_images.binary.as_str(),
        };
        push_text(&mut argv, image);
        match language {
            CodeLanguage::Python => {
                push_text(&mut argv, "python3");
                push_text(&mut argv, "-c");
                push_text(&mut argv, code);
            },
            CodeLanguage::Shell => {
                push_text(&mut argv, "bash");
                push_text(&mut argv, "-c");
                push_text(&mut argv, code);
            },
            CodeLanguage::Binary => {
                push_text(&mut argv, code);
                push_texts(&mut argv, args);
            },
        }
        assert(strs(argv@) =~= options + seq![image_for(self.docker_images, language)]
            + guest_argv(language, code@, strs(args@)));
        Ok(argv)
    }

    /// How long the watchdog waits for a run, in seconds; zero for ever. For a
    /// container it is a safety net beyond `timeout`'s own grace period.
    pub fn watchdog_secs(&self) -> (r: u64)
        ensures
            r == (if self.mode == SandboxMode::Subprocess {
                self.timeout_secs as int
            } else if self.timeout_secs + 30 > u64::MAX {
                u64::MAX as int
            } else {
                self.timeout_secs + 30
            }),
    {
        match self.mode {
            SandboxMode::Subprocess => self.timeout_secs,
            SandboxMode::Docker => {
                if self.timeout_secs > u64::MAX - 30 {
                    u64::MAX
                } else {
                    self.timeout_secs + 30
                }
            },
        }
    }

    /// The JSON result of a run, from what it wrote, its exit code, and
    /// whether the watchdog killed it.
    pub fn finish(
        &self,
        stdout: &Vec<u8>,
        stderr: &Vec<u8>,
        exit_code: Option<i32>,
        killed: bool,
    ) -> (r: String)
        ensures
            r@ == result_json(
                stdout@,
                stderr@,
                exit_code,
                has_timed_out(self.mode, exit_code, killed),
            ),
    {
        let by_timeout = match exit_code {
            Some(n) => n == TIMEOUT_EXIT,
            None => false,
        };
        let timed_out = by_timeout || (self.mode == SandboxMode::Subprocess && killed);
        format_result(stdout, stderr, exit_code, timed_out)
    }
}

/// The strings among the arguments reach the program in their order, and
/// nothing else does.
pub proof fn law_arguments_keep_their_order(a: Seq<JsonTree>, v: JsonTree, b: Seq<JsonTree>)
    ensures
        texts_in(Seq::empty()) == Seq::<Seq<char>>::empty(),
        texts_in(a.push(v) + b) == texts_in(a) + (match v {
            JsonTree::Text(s) => seq![s],
            _ => Seq::empty(),
        }) + texts_in(b),
    decreases b.len(),
{
    let all = a.push(v) + b;
    let one = match v {
        JsonTree::Text(s) => seq![s],
        _ => Seq::<Seq<char>>::empty(),
    };
    if b.len() == 0 {
        assert(all =~= a.push(v));
        assert(all.drop_last() =~= a);
        assert(texts_in(all) =~= texts_in(a) + one + texts_in(b));
    } else {
        law_arguments_keep_their_order(a, v, b.drop_last());
        assert(all.drop_last() =~= a.push(v) + b.drop_last());
        assert(texts_in(all) =~= texts_in(a) + one + texts_in(b));
    }
}

/// A guest gets its search path and its home, as far as the host has them, and
/// a directory for temporary files of its own, and no other variable.
pub proof fn law_environments_are_scrubbed(
    path: Option<Seq<char>>,
    home: Option<Seq<char>>,
    profile: Option<Seq<char>>,
    workdir: Seq<char>,
    i: int,
)
    ensures
        ({
            let env = scrubbed(path, home, profile, workdir);
            &&& env.len() > 0
            &&& env.last() == ("TMPDIR"@, workdir)
            &&& path is Some ==> env.contains(("PATH"@, path->0))
            &&& home is Some ==> env.contains(("HOME"@, home->0))
            &&& home is None && profile is Some ==> env.contains(("HOME"@, profile->0))
            &&& 0 <= i < env.len() ==> {
                ||| i == env.len() - 1
                ||| path is Some && env[i] == ("PATH"@, path->0)
                ||| home is Some && env[i] == ("HOME"@, home->0)
                ||| home is None && profile is Some && env[i] == ("HOME"@, profile->0)
            }
        }),
{
    let env = scrubbed(path, home, profile, workdir);
    let n = if path is Some {
        1int
    } else {
        0int
    };
    if path is Some {
        assert(env[0] == ("PATH"@, path->0));
    }
    if home is Some {
        assert(env[n] == ("HOME"@, home->0));
    } else if profile is Some {
        assert(env[n] == ("HOME"@, profile->0));
    }
}

#[verifier::rlimit(40)]
proof fn lemma_exit_text(code: Option<i32>)
    ensures
        exit_text(code).len() > 0,
        !exit_text(code).contains(','),
        code is None ==> exit_text(code)[0] == 'n',
        code is Some && code->0 < 0 ==> exit_text(code)[0] == '-' && crate::text::digits_value(
            exit_text(code).skip(1),
        ) == -(code->0),
        code is Some && code->0 >= 0 ==> '0' <= exit_text(code)[0] <= '9'
            && crate::text::digits_value(exit_text(code)) == code->0,
{
    reveal_strlit("null");
    reveal_strlit("-");
    if let Some(n) = code {
        let size: nat = if n < 0 {
            (-n) as nat
        } else {
            n as nat
        };
        crate::text::lemma_decimal_digits(size);
        let d = decimal(size);
        assert(crate::text::is_digit_char(d[0]));
        assert(!d.contains(',')) by {
            if d.contains(',') {
                let k = choose|k: int| 0 <= k < d.len() && d[k] == ',';
                assert(crate::text::is_digit_char(d[k]));
            }
        }
        let all = exit_text(code);
        if n < 0 {
            assert(all.skip(1) =~= d);
            if all.contains(',') {
                let k = choose|k: int| 0 <= k < all.len() && all[k] == ',';
                assert(k == 0 || d[k - 1] == ',');
            }
        }
    } else {
        assert(exit_text(code) =~= seq!['n', 'u', 'l', 'l']);
    }
}

#[verifier::rlimit(40)]
proof fn lemma_same_exit(a: Option<i32>, x: Seq<char>, b: Option<i32>, y: Seq<char>)
    requires
        exit_text(a).push(',') + x == exit_text(b).push(',') + y,
    ensures
        a == b,
        x == y,
{
    lemma_exit_text(a);
    lemma_exit_text(b);
    let p = exit_text(a);
    let q = exit_text(b);
    let left = p.push(',') + x;
    let right = q.push(',') + y;
    crate::text::law_splitting_parts_at_the_character(p, ',', x);
    crate::text::law_splitting_parts_at_the_character(q, ',', y);
    assert(crate::text::split_on(left, ',')[0] == p);
    assert(crate::text::split_on(right, ',')[0] == q);
    assert(p == q);
    assert(left.skip(p.len() as int + 1) =~= x);
    assert(right.skip(q.len() as int + 1) =~= y);
    assert(a == b) by {
        match (a, b) {
            (Some(m), Some(n)) => {
                assert(m < 0 <==> n < 0);
                assert(m == n);
            },
            _ => {},
        }
    }
}

/// The exit code that a result shows.
spec fn shown_exit(exit_code: Option<i32>, timed_out: bool) -> Option<i32> {
    if timed_out {
        Some(124)
    } else {
        exit_code
    }
}

/// What stands behind the exit code of a result and its comma.
spec fn result_end(timed_out: bool) -> Seq<char> {
    ",\"timed_out\":"@.skip(1) + bool_text(timed_out) + "}"@
}

#[verifier::rlimit(40)]
proof fn lemma_result_shape(
    stdout: Seq<u8>,
    stderr: Seq<u8>,
    exit_code: Option<i32>,
    timed_out: bool,
)
    ensures
        result_json(stdout, stderr, exit_code, timed_out) == "{\"stdout\":"@ + (json_quote(
            utf8_lossy(stdout),
        ) + (",\"stderr\":"@ + (json_quote(utf8_lossy(stderr)) + (",\"exit_code\":"@ + (exit_text(
            shown_exit(exit_code, timed_out),
        ).push(',') + result_end(timed_out)))))),
{
    reveal_strlit(",\"timed_out\":");
    let exit = exit_text(shown_exit(exit_code, timed_out));
    let comma = ",\"timed_out\":"@;
    let tail = comma.skip(1);
    let b = bool_text(timed_out);
    assert(exit + comma =~= exit.push(',') + tail);
    let a = "{\"stdout\":"@ + json_quote(utf8_lossy(stdout)) + ",\"stderr\":"@ + json_quote(
        utf8_lossy(stderr),
    ) + ",\"exit_code\":"@;
    assert(a + exit + comma + b + "}"@ =~= a + (exit + comma) + b + "}"@);
    assert(a + (exit.push(',') + tail) + b + "}"@ =~= a + (exit.push(',') + (tail + b + "}"@)));
    lemma_group(
        "{\"stdout\":"@,
        json_quote(utf8_lossy(stdout)),
        ",\"stderr\":"@,
        json_quote(utf8_lossy(stderr)),
        ",\"exit_code\":"@,
        exit.push(',') + (tail + b + "}"@),
    );
}

proof fn lemma_group(
    a: Seq<char>,
    b: Seq<char>,
    c: Seq<char>,
    d: Seq<char>,
    e: Seq<char>,
    f: Seq<char>,
)
    ensures
        a + b + c + d + e + f == a + (b + (c + (d + (e + f)))),
{
    assert(a + b + c + d + e + f =~= a + (b + (c + (d + (e + f)))));
}

proof fn lemma_same_behind(head: Seq<char>, x: Seq<char>, y: Seq<char>)
    requires
        head + x == head + y,
    ensures
        x == y,
{
    assert((head + x).skip(head.len() as int) =~= x);
    assert((head + y).skip(head.len() as int) =~= y);
}

proof fn lemma_peel(head: Seq<char>, a: Seq<char>, x: Seq<char>, b: Seq<char>, y: Seq<char>)
    requires
        head + (json_quote(a) + x) == head + (json_quote(b) + y),
    ensures
        a == b,
        x == y,
{
    lemma_same_behind(head, json_quote(a) + x, json_quote(b) + y);
    crate::json::law_quoted_strings_end_at_their_quote(a, x, b, y);
}

#[verifier::rlimit(30)]
proof fn lemma_same_end(a: bool, b: bool)
    requires
        result_end(a) == result_end(b),
    ensures
        a == b,
{
    reveal_strlit(",\"timed_out\":");
    reveal_strlit("}");
    reveal_strlit("true");
    reveal_strlit("false");
    let tail = ",\"timed_out\":"@.skip(1);
    assert(tail.len() == 12);
    assert(result_end(a)[12] == bool_text(a)[0]);
    assert(result_end(b)[12] == bool_text(b)[0]);
}

/// Two runs are told alike only where they wrote the same to both streams and
/// ended the same way: nothing that a run wrote, and no exit code, is lost in
/// the result.
#[verifier::rlimit(40)]
pub proof fn law_results_tell_runs_apart(
    stdout: Seq<u8>,
    stderr: Seq<u8>,
    exit_code: Option<i32>,
    timed_out: bool,
    other_stdout: Seq<u8>,
    other_stderr: Seq<u8>,
    other_exit_code: Option<i32>,
    other_timed_out: bool,
)
    requires
        result_json(stdout, stderr, exit_code, timed_out) == result_json(
            other_stdout,
            other_stderr,
            other_exit_code,
            other_timed_out,
        ),
    ensures
        utf8_lossy(stdout) == utf8_lossy(other_stdout),
        utf8_lossy(stderr) == utf8_lossy(other_stderr),
        timed_out == other_timed_out,
        !timed_out && !other_timed_out ==> exit_code == other_exit_code,
{
    let exit = shown_exit(exit_code, timed_out);
    let other_exit = shown_exit(other_exit_code, other_timed_out);
    let end = result_end(timed_out);
    let other_end = result_end(other_timed_out);
    let third = ",\"exit_code\":"@ + (exit_text(exit).push(',') + end);
    let other_third = ",\"exit_code\":"@ + (exit_text(other_exit).push(',') + other_end);
    let second = ",\"stderr\":"@ + (json_quote(utf8_lossy(stderr)) + third);
    let other_second = ",\"stderr\":"@ + (json_quote(utf8_lossy(other_stderr)) + other_third);
    lemma_result_shape(stdout, stderr, exit_code, timed_out);
    lemma_result_shape(other_stdout, other_stderr, other_exit_code, other_timed_out);
    lemma_peel(
        "{\"stdout\":"@,
        utf8_lossy(stdout),
        second,
        utf8_lossy(other_stdout),
        other_second,
    );
    lemma_peel(
        ",\"stderr\":"@,
        utf8_lossy(stderr),
        third,
        utf8_lossy(other_stderr),
        other_third,
    );
    lemma_same_behind(
        ",\"exit_code\":"@,
        exit_text(exit).push(',') + end,
        exit_text(other_exit).push(',') + other_end,
    );
    lemma_same_exit(exit, end, other_exit, other_end);
    lemma_same_end(timed_out, other_timed_out);
}

/// The code of a call is passed on as it was given, under whatever name its
/// language goes; a call that names no language is one of Python, one without
/// code runs the empty program, and only a binary goes by its command.
pub proof fn law_code_is_passed_on(
    r: Result<(CodeLanguage, String, Vec<String>), SkadooshError>,
    v: JsonTree,
)
    requires
        is_call(r, v),
    ensures
        v.member_text("language"@) is None && lowercase("python"@) == "python"@ ==> r is Ok
            && (r->Ok_0).0 == CodeLanguage::Python,
        r is Ok && (r->Ok_0).0 != CodeLanguage::Binary ==> (r->Ok_0).1@ == (match v.member_text(
            "code"@,
        ) {
            Some(code) => code,
            None => Seq::empty(),
        }),
        r is Ok && (r->Ok_0).0 == CodeLanguage::Binary && v.member_text("command"@) is Some && (
        v.member_text("command"@)->0).len() > 0 ==> (r->Ok_0).1@ == v.member_text("command"@)->0,
        r is Ok && v.member("args"@) is None ==> (r->Ok_0).2@.len() == 0,
{
    reveal_strlit("");
    assert(""@ =~= Seq::empty());
    if r is Ok && v.member("args"@) is None {
        assert(strs((r->Ok_0).2@).len() == (r->Ok_0).2@.len());
    }
}

/// A container has no network, a root that it cannot write and no
/// capabilities, sees its working directory alone, and gets the code as an
/// argument of its own.
pub proof fn law_containers_are_closed(
    limits: ResourceLimits,
    workdir: Seq<char>,
    language: CodeLanguage,
    code: Seq<char>,
    args: Seq<Seq<char>>,
)
    ensures
        ({
            let options = container_options(limits, workdir);
            let n = options.len() as int;
            &&& n >= 15
            &&& options[3] == "--network"@ && options[4] == "none"@
            &&& options.contains("--read-only"@)
            &&& options.contains("--cap-drop=ALL"@)
            &&& options[7] == "--security-opt"@ && options[8] == "no-new-privileges"@
            &&& options[n - 4] == "-v"@ && options[n - 3] == workdir + ":/work"@
            &&& guest_argv(language, code, args).contains(code)
        }),
{
    let options = container_options(limits, workdir);
    assert(options[5] == "--read-only"@);
    assert(options[6] == "--cap-drop=ALL"@);
    let guest = guest_argv(language, code, args);
    match language {
        CodeLanguage::Binary => assert(guest[0] == code),
        _ => assert(guest[2] == code),
    }
}

/// A run counts as timed out where its watchdog killed it or `timeout` says
/// so, and nowhere else.
pub proof fn law_killed_runs_timed_out(mode: SandboxMode, exit_code: Option<i32>, killed: bool)
    ensures
        exit_code == Some(124i32) ==> has_timed_out(mode, exit_code, killed),
        has_timed_out(SandboxMode::Subprocess, exit_code, true),
        has_timed_out(mode, exit_code, killed) && exit_code != Some(124i32) ==> killed,
{
}

} // verus!
