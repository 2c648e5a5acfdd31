//! Host doctor: what the probes of `node`, `npm` and the agents' login
//! status mean, and what a Node.js install attempt reports.
use vstd::prelude::*;
use crate::text::{
    chars_of, contains, contains_str, dec_i32_exec, dec_int, eq, find, lemma_find_from_sound, lit,
    lower, match_at, push_all, split,
    split_exec, string_of, string_views, to_lower, trim, trim_exec, views, slice_of,
};

verus! {

/// Outcome of a one-click Node.js install.
#[derive(Debug, Clone, Copy, PartialEq, Eq, Structural)]
pub enum NodeInstallOutcome {
    Installed,
    Failed,
    NoPackageManager,
}

/// State of a host runtime (`node`, `npm`).
#[derive(Debug, Clone, Copy, PartialEq, Eq, Structural)]
pub enum HostToolStatus {
    Available,
    Missing,
    Unusable,
}

/// What a `<tool> --version` probe found.
#[derive(Debug, Clone)]
pub struct HostToolDiagnostic {
    pub status: HostToolStatus,
    pub resolved_path: Option<String>,
    pub version: Option<String>,
    pub detail: Option<String>,
}

/// Login state of an agent CLI.
#[derive(Debug, Clone, Copy, PartialEq, Eq, Structural)]
pub enum CodexAuthStatus {
    Authenticated,
    Unauthenticated,
    NotApplicable,
    Unknown,
}

/// What a login-status probe found.
#[derive(Debug, Clone)]
pub struct CodexAuthDiagnostic {
    pub status: CodexAuthStatus,
    pub method: Option<String>,
    pub detail: Option<String>,
}

/// The host runtimes' state.
#[derive(Debug, Clone)]
pub struct HostDoctorReport {
    pub node: HostToolDiagnostic,
    pub npm: HostToolDiagnostic,
    pub npm_prefix: Option<String>,
}

/// What a Node.js install attempt reports.
#[derive(Debug, Clone)]
pub struct NodeInstallResult {
    pub outcome: NodeInstallOutcome,
    /// Package manager used (winget / brew), when one was available.
    pub installer: Option<String>,
    /// Failure detail when the outcome is `failed`.
    pub error: Option<String>,
    /// Host probe re-run after the install attempt.
    pub report: HostDoctorReport,
}

/// The result of running a probe command to completion.
#[derive(Debug, Clone)]
pub struct CommandOutput {
    pub success: bool,
    pub code: Option<i32>,
    pub stdout: String,
    pub stderr: String,
}

// ---------------------------------------------------------------------------
// Reading probe output
// ---------------------------------------------------------------------------

/// The first line that is not blank, trimmed.
pub open spec fn first_nonblank(lines: Seq<Seq<char>>) -> Option<Seq<char>>
    decreases lines.len(),
{
    if lines.len() == 0 {
        None
    } else if trim(lines[0]).len() > 0 {
        Some(trim(lines[0]))
    } else {
        first_nonblank(lines.drop_first())
    }
}

/// At most the first `n` characters of `s`.
pub open spec fn take_chars(s: Seq<char>, n: int) -> Seq<char> {
    if s.len() <= n {
        s
    } else {
        s.take(n)
    }
}

/// The first non-blank line of stdout, then of stderr, trimmed and cut to
/// 160 characters. (Splitting at `\n` and trimming gives the same non-blank
/// lines as `str::lines`, which also drops a `\r` before the `\n`.)
pub open spec fn first_line_of(stdout: Seq<char>, stderr: Seq<char>) -> Option<Seq<char>> {
    match first_nonblank(split(stdout, '\n') + split(stderr, '\n')) {
        Some(l) => Some(take_chars(l, 160)),
        None => None,
    }
}

/// First non-blank output line (stdout before stderr), trimmed, at most 160
/// characters.
pub fn first_output_line(output: &CommandOutput) -> (r: Option<String>)
    ensures
        r.deep_view() == first_line_of(output.stdout@, output.stderr@),
{
    let mut lines = split_exec(chars_of(output.stdout.as_str()).as_slice(), '\n');
    let mut more = split_exec(chars_of(output.stderr.as_str()).as_slice(), '\n');
    let ghost a = views(lines@);
    lines.append(&mut more);
    let ghost all = views(lines@);
    assert(all =~= split(output.stdout@, '\n') + split(output.stderr@, '\n'));
    assert(all.skip(0) =~= all);
    let mut i: usize = 0;
    while i < lines.len()
        invariant
            i <= lines@.len(),
            all == views(lines@),
            all == split(output.stdout@, '\n') + split(output.stderr@, '\n'),
            first_nonblank(all) == first_nonblank(all.skip(i as int)),
        decreases lines.len() - i,
    {
        let t = trim_exec(lines[i].as_slice());
        assert(all.skip(i as int)[0] == lines@[i as int]@);
        if t.len() > 0 {
            let n = t.len();
            assert(first_nonblank(all.skip(i as int)) == Some(t@));
            let kept = if n <= 160 {
                t
            } else {
                let c = slice_of(t.as_slice(), 0, 160);
                assert(c@ =~= t@.take(160));
                c
            };
            return Some(string_of(kept.as_slice()));
        }
        assert(all.skip(i as int).drop_first() =~= all.skip(i + 1));
        i += 1;
    }
    assert(all.skip(i as int).len() == 0);
    None
}

/// How a logged-in CLI authenticated, from its status output.
pub open spec fn auth_method_of(output: Seq<char>) -> Seq<char> {
    let l = lower(output);
    if contains(l, "chatgpt"@) {
        "chatgpt"@
    } else if contains(l, "api key"@) || contains(l, "api-key"@) {
        "api-key"@
    } else {
        "authenticated"@
    }
}

/// `chatgpt`, `api-key` or `authenticated`, from a login-status output.
pub fn auth_method(output: &str) -> (r: String)
    ensures
        r@ == auth_method_of(output@),
{
    let l = to_lower(chars_of(output).as_slice());
    if contains_str(l.as_slice(), "chatgpt") {
        string_of(lit("chatgpt").as_slice())
    } else if contains_str(l.as_slice(), "api key") || contains_str(l.as_slice(), "api-key") {
        string_of(lit("api-key").as_slice())
    } else {
        string_of(lit("authenticated").as_slice())
    }
}

/// The parts of a login diagnostic.
pub open spec fn auth_view(d: CodexAuthDiagnostic) -> (
    CodexAuthStatus,
    Option<Seq<char>>,
    Option<Seq<char>>,
) {
    (d.status, d.method.deep_view(), d.detail.deep_view())
}

/// Why a status command's exit says nothing recognizable.
pub open spec fn status_exit_detail(code: Option<i32>) -> Seq<char> {
    match code {
        Some(c) => "status command exited with "@ + dec_int(c as int),
        None => "status command terminated without an exit status"@,
    }
}

/// The login state a status command's output shows: success means logged
/// in (with its method); a failure whose text says the user is not logged in
/// means logged out; anything else is unknown, with the exit status.
pub open spec fn auth_from_output(
    success: bool,
    code: Option<i32>,
    stdout: Seq<char>,
    stderr: Seq<char>,
) -> (CodexAuthStatus, Option<Seq<char>>, Option<Seq<char>>) {
    let combined = stdout + "\n"@ + stderr;
    let l = lower(combined);
    if success {
        (CodexAuthStatus::Authenticated, Some(auth_method_of(combined)), None)
    } else if contains(l, "not logged in"@) || contains(l, "login required"@) || contains(
        l,
        "not authenticated"@,
    ) || contains(l, "unauthenticated"@) {
        (CodexAuthStatus::Unauthenticated, None, None)
    } else {
        (CodexAuthStatus::Unknown, None, Some(status_exit_detail(code)))
    }
}

/// The phrases by which a failed status command says the user is logged out.
pub open spec fn logged_out_phrases() -> Seq<Seq<char>> {
    seq!["not logged in"@, "login required"@, "not authenticated"@, "unauthenticated"@]
}

/// Text found in a part is found in the whole.
proof fn lemma_found_in_join(a: Seq<char>, b: Seq<char>, p: Seq<char>)
    ensures
        contains(a, p) ==> contains(a + b, p),
        contains(b, p) ==> contains(a + b, p),
{
    lemma_find_from_sound(a, p, 0);
    lemma_find_from_sound(b, p, 0);
    lemma_find_from_sound(a + b, p, 0);
    if contains(a, p) {
        let j = find(a, p)->0;
        assert((a + b).subrange(j, j + p.len()) =~= a.subrange(j, j + p.len()));
        assert(match_at(a + b, p, j));
    }
    if contains(b, p) {
        let j = find(b, p)->0;
        assert((a + b).subrange(a.len() + j, a.len() + j + p.len()) =~= b.subrange(j, j + p.len()));
        assert(match_at(a + b, p, a.len() + j));
    }
}

/// Law: a status command that succeeded reports logged in, with a method. A
/// failed one whose stdout or stderr holds, in any ASCII case, one of the
/// logged-out phrases ("not logged in", "login required", "not
/// authenticated", "unauthenticated") reports logged out, with no method and
/// no detail; a failed one whose output holds none of them reports unknown,
/// with a detail.
pub proof fn lemma_auth_outcome(
    success: bool,
    code: Option<i32>,
    stdout: Seq<char>,
    stderr: Seq<char>,
)
    ensures
        success ==> ({
            let r = auth_from_output(success, code, stdout, stderr);
            r.0 == CodexAuthStatus::Authenticated && r.1 is Some && r.2 is None
        }),
        !success && (exists|k: int|
            0 <= k < 4 && (contains(lower(stdout), #[trigger] logged_out_phrases()[k]) || contains(
                lower(stderr),
                logged_out_phrases()[k],
            ))) ==> auth_from_output(success, code, stdout, stderr) == (
            CodexAuthStatus::Unauthenticated,
            None::<Seq<char>>,
            None::<Seq<char>>,
        ),
        !success && (forall|k: int|
            0 <= k < 4 ==> !contains(
                lower(stdout + "\n"@ + stderr),
                #[trigger] logged_out_phrases()[k],
            )) ==> ({
            let r = auth_from_output(success, code, stdout, stderr);
            &&& r.0 == CodexAuthStatus::Unknown
            &&& r.1 is None
            &&& r.2 == Some(
                match code {
                    Some(c) => "status command exited with "@ + dec_int(c as int),
                    None => "status command terminated without an exit status"@,
                },
            )
        }),
        success && (contains(lower(stdout), "chatgpt"@) || contains(lower(stderr), "chatgpt"@))
            ==> auth_from_output(success, code, stdout, stderr).1 == Some("chatgpt"@),
        success && !contains(lower(stdout + "\n"@ + stderr), "chatgpt"@) && (contains(
            lower(stdout),
            "api key"@,
        ) || contains(lower(stderr), "api key"@) || contains(lower(stdout), "api-key"@)
            || contains(lower(stderr), "api-key"@)) ==> auth_from_output(
            success,
            code,
            stdout,
            stderr,
        ).1 == Some("api-key"@),
        success && !contains(lower(stdout + "\n"@ + stderr), "chatgpt"@) && !contains(
            lower(stdout + "\n"@ + stderr),
            "api key"@,
        ) && !contains(lower(stdout + "\n"@ + stderr), "api-key"@) ==> auth_from_output(
            success,
            code,
            stdout,
            stderr,
        ).1 == Some("authenticated"@),
{
    let ph = logged_out_phrases();
    let l = lower(stdout + "\n"@ + stderr);
    assert(l =~= lower(stdout) + lower("\n"@) + lower(stderr));
    assert(ph[0] == "not logged in"@ && ph[1] == "login required"@);
    assert(ph[2] == "not authenticated"@ && ph[3] == "unauthenticated"@);
    if !success && (exists|k: int|
        0 <= k < 4 && (contains(lower(stdout), #[trigger] ph[k]) || contains(lower(stderr), ph[k])))
    {
        let k = choose|k: int|
            0 <= k < 4 && (contains(lower(stdout), #[trigger] ph[k]) || contains(
                lower(stderr),
                ph[k],
            ));
        lemma_found_in_join(lower(stdout), lower("\n"@), ph[k]);
        lemma_found_in_join(lower(stdout) + lower("\n"@), lower(stderr), ph[k]);
        assert(contains(l, ph[k]));
    }
    lemma_found_in_join(lower(stdout), lower("\n"@), "chatgpt"@);
    lemma_found_in_join(lower(stdout) + lower("\n"@), lower(stderr), "chatgpt"@);
    lemma_found_in_join(lower(stdout), lower("\n"@), "api key"@);
    lemma_found_in_join(lower(stdout) + lower("\n"@), lower(stderr), "api key"@);
    lemma_found_in_join(lower(stdout), lower("\n"@), "api-key"@);
    lemma_found_in_join(lower(stdout) + lower("\n"@), lower(stderr), "api-key"@);
    if !success && (forall|k: int| 0 <= k < 4 ==> !contains(l, #[trigger] ph[k])) {
        assert(!contains(l, ph[0]) && !contains(l, ph[1]) && !contains(l, ph[2]) && !contains(
            l,
            ph[3],
        ));
    }
}

fn status_detail_exec(code: Option<i32>) -> (r: String)
    ensures
        r@ == status_exit_detail(code),
{
    match code {
        Some(c) => {
            let mut out = lit("status command exited with ");
            push_all(&mut out, dec_i32_exec(c).as_slice());
            string_of(out.as_slice())
        },
        None => string_of(lit("status command terminated without an exit status").as_slice()),
    }
}

/// Interpret the output of a login-status command.
pub fn parse_auth_output(output: &CommandOutput) -> (r: CodexAuthDiagnostic)
    ensures
        auth_view(r) == auth_from_output(
            output.success,
            output.code,
            output.stdout@,
            output.stderr@,
        ),
{
    let mut combined = chars_of(output.stdout.as_str());
    push_all(&mut combined, lit("\n").as_slice());
    push_all(&mut combined, chars_of(output.stderr.as_str()).as_slice());
    let l = to_lower(combined.as_slice());
    if output.success {
        let cs = string_of(combined.as_slice());
        return CodexAuthDiagnostic {
            status: CodexAuthStatus::Authenticated,
            method: Some(auth_method(cs.as_str())),
            detail: None,
        };
    }
    let ls = l.as_slice();
    if contains_str(ls, "not logged in") || contains_str(ls, "login required") || contains_str(
        ls,
        "not authenticated",
    ) || contains_str(ls, "unauthenticated") {
        return CodexAuthDiagnostic {
            status: CodexAuthStatus::Unauthenticated,
            method: None,
            detail: None,
        };
    }
    CodexAuthDiagnostic {
        status: CodexAuthStatus::Unknown,
        method: None,
        detail: Some(status_detail_exec(output.code)),
    }
}

/// What `serde_json` reads from an `auth status` JSON output: `None` when it
/// is not JSON, else the `loggedIn` flag (when a boolean) and the
/// `authMethod` (when a string).
pub uninterp spec fn claude_status_json(stdout: Seq<char>) -> Option<(Option<bool>, Option<Seq<char>>)>;

/// `serde_json::from_str::<serde_json::Value>`, then `Value::get` with
/// `Value::as_bool` / `Value::as_str` on the two fields. The result is named
/// by `claude_status_json`; nothing more about JSON parsing is stated.
#[verifier::external_body]
fn claude_status_fields(stdout: &str) -> (r: Option<(Option<bool>, Option<String>)>)
    ensures
        match r {
            Some((logged_in, method)) => claude_status_json(stdout@) == Some(
                (logged_in, method.deep_view()),
            ),
            None => claude_status_json(stdout@) is None,
        },
{
    match serde_json::from_str::<serde_json::Value>(stdout) {
        Ok(value) => Some((
            value.get("loggedIn").and_then(serde_json::Value::as_bool),
            value.get("authMethod").and_then(serde_json::Value::as_str).map(str::to_string),
        )),
        Err(_) => None,
    }
}

/// The login state from an `auth status` JSON report: its `loggedIn` flag
/// decides when present (with `authMethod` as the method), else the text
/// heuristics of [`parse_auth_output`] apply.
pub open spec fn claude_auth_from(
    json: Option<(Option<bool>, Option<Seq<char>>)>,
    success: bool,
    code: Option<i32>,
    stdout: Seq<char>,
    stderr: Seq<char>,
) -> (CodexAuthStatus, Option<Seq<char>>, Option<Seq<char>>) {
    match json {
        Some((Some(true), method)) => (CodexAuthStatus::Authenticated, method, None),
        Some((Some(false), _)) => (CodexAuthStatus::Unauthenticated, None, None),
        _ => auth_from_output(success, code, stdout, stderr),
    }
}

/// Decide the login state from the fields read out of an `auth status` JSON report.
pub fn claude_auth_from_json(
    json: Option<(Option<bool>, Option<String>)>,
    output: &CommandOutput,
) -> (r: CodexAuthDiagnostic)
    ensures
        auth_view(r) == claude_auth_from(
            match json {
                Some((b, m)) => Some((b, m.deep_view())),
                None => None,
            },
            output.success,
            output.code,
            output.stdout@,
            output.stderr@,
        ),
{
    match json {
        Some((Some(true), method)) => CodexAuthDiagnostic {
            status: CodexAuthStatus::Authenticated,
            method,
            detail: None,
        },
        Some((Some(false), _)) => CodexAuthDiagnostic {
            status: CodexAuthStatus::Unauthenticated,
            method: None,
            detail: None,
        },
        _ => parse_auth_output(output),
    }
}

/// The `auth status` command prints JSON like `{"loggedIn": true, "authMethod":
/// "oauth_token"}` whatever its exit code; other output falls back to the
/// text heuristics.
pub fn parse_claude_auth_output(output: &CommandOutput) -> (r: CodexAuthDiagnostic)
    ensures
        auth_view(r) == claude_auth_from(
            claude_status_json(output.stdout@),
            output.success,
            output.code,
            output.stdout@,
            output.stderr@,
        ),
{
    let json = claude_status_fields(output.stdout.as_str());
    claude_auth_from_json(json, output)
}

/// The login state from a status command run: its output, or unknown with
/// the reason it could not run.
pub fn auth_from_run(run: Result<CommandOutput, String>) -> (r: CodexAuthDiagnostic)
    ensures
        match run {
            Ok(o) => auth_view(r) == auth_from_output(o.success, o.code, o.stdout@, o.stderr@),
            Err(d) => auth_view(r) == (CodexAuthStatus::Unknown, None::<Seq<char>>, Some(d@)),
        },
{
    match run {
        Ok(o) => parse_auth_output(&o),
        Err(d) => CodexAuthDiagnostic { status: CodexAuthStatus::Unknown, method: None, detail: Some(d) },
    }
}

/// The login state from a run of the JSON-reporting `auth status` command.
pub fn claude_auth_from_run(run: Result<CommandOutput, String>) -> (r: CodexAuthDiagnostic)
    ensures
        match run {
            Ok(o) => auth_view(r) == claude_auth_from(
                claude_status_json(o.stdout@),
                o.success,
                o.code,
                o.stdout@,
                o.stderr@,
            ),
            Err(d) => auth_view(r) == (CodexAuthStatus::Unknown, None::<Seq<char>>, Some(d@)),
        },
{
    match run {
        Ok(o) => parse_claude_auth_output(&o),
        Err(d) => CodexAuthDiagnostic { status: CodexAuthStatus::Unknown, method: None, detail: Some(d) },
    }
}

/// Login state when the CLI `tool` is not installed.
pub fn auth_not_installed(tool: &str) -> (r: CodexAuthDiagnostic)
    ensures
        auth_view(r) == (
            CodexAuthStatus::NotApplicable,
            None::<Seq<char>>,
            Some(tool@ + " is not installed"@),
        ),
{
    let mut d = chars_of(tool);
    push_all(&mut d, lit(" is not installed").as_slice());
    CodexAuthDiagnostic {
        status: CodexAuthStatus::NotApplicable,
        method: None,
        detail: Some(string_of(d.as_slice())),
    }
}

/// Whether the adapter's answer leaves the login state unknown, so the
/// plain `codex` CLI is asked next.
pub fn needs_cli_fallback(adapter: &CodexAuthDiagnostic) -> (r: bool)
    ensures
        r == (adapter.status == CodexAuthStatus::Unknown),
{
    adapter.status == CodexAuthStatus::Unknown
}

// ---------------------------------------------------------------------------
// Host tools
// ---------------------------------------------------------------------------

/// The parts of a tool diagnostic.
pub open spec fn tool_view(d: HostToolDiagnostic) -> (
    HostToolStatus,
    Option<Seq<char>>,
    Option<Seq<char>>,
    Option<Seq<char>>,
) {
    (d.status, d.resolved_path.deep_view(), d.version.deep_view(), d.detail.deep_view())
}

/// A tool that is not on the agent's PATH.
pub fn missing_tool() -> (r: HostToolDiagnostic)
    ensures
        tool_view(r) == (HostToolStatus::Missing, None::<Seq<char>>, None::<Seq<char>>, None::<
            Seq<char>,
        >),
{
    HostToolDiagnostic { status: HostToolStatus::Missing, resolved_path: None, version: None, detail: None }
}

/// Why a `--version` probe's exit makes the tool unusable.
pub open spec fn probe_exit_detail(code: Option<i32>) -> Seq<char> {
    match code {
        Some(c) => "exited with status "@ + dec_int(c as int),
        None => "terminated without an exit status"@,
    }
}

/// The diagnostic of a tool found at `path` from its `--version` run:
/// available with the first output line as version when it succeeded,
/// otherwise unusable with the exit status or the reason it could not run.
pub open spec fn probed_view(path: Seq<char>, run: Result<CommandOutput, String>) -> (
    HostToolStatus,
    Option<Seq<char>>,
    Option<Seq<char>>,
    Option<Seq<char>>,
) {
    match run {
        Ok(o) => if o.success {
            (HostToolStatus::Available, Some(path), first_line_of(o.stdout@, o.stderr@), None)
        } else {
            (HostToolStatus::Unusable, Some(path), None, Some(probe_exit_detail(o.code)))
        },
        Err(d) => (HostToolStatus::Unusable, Some(path), None, Some(d@)),
    }
}

/// Diagnose a tool resolved at `path` from its `--version` run.
pub fn probed_tool(path: String, run: Result<CommandOutput, String>) -> (r: HostToolDiagnostic)
    ensures
        tool_view(r) == probed_view(path@, run),
{
    match run {
        Ok(o) => {
            if o.success {
                HostToolDiagnostic {
                    status: HostToolStatus::Available,
                    resolved_path: Some(path),
                    version: first_output_line(&o),
                    detail: None,
                }
            } else {
                let detail = match o.code {
                    Some(c) => {
                        let mut out = lit("exited with status ");
                        push_all(&mut out, dec_i32_exec(c).as_slice());
                        string_of(out.as_slice())
                    },
                    None => string_of(lit("terminated without an exit status").as_slice()),
                };
                HostToolDiagnostic {
                    status: HostToolStatus::Unusable,
                    resolved_path: Some(path),
                    version: None,
                    detail: Some(detail),
                }
            }
        },
        Err(d) => HostToolDiagnostic {
            status: HostToolStatus::Unusable,
            resolved_path: Some(path),
            version: None,
            detail: Some(d),
        },
    }
}

/// The global npm prefix from an `npm prefix -g` run: its first output line
/// when it succeeded, else none.
pub fn npm_prefix_from_run(run: &Result<CommandOutput, String>) -> (r: Option<String>)
    ensures
        r.deep_view() == match run {
            Ok(o) => if o.success {
                first_line_of(o.stdout@, o.stderr@)
            } else {
                None
            },
            Err(_) => None,
        },
{
    match run {
        Ok(o) => if o.success {
            first_output_line(o)
        } else {
            None
        },
        Err(_) => None,
    }
}

/// `paths` followed by each non-empty entry of `extra` not already present
/// (earlier entries of `extra` included).
pub open spec fn merged_paths(paths: Seq<Seq<char>>, extra: Seq<Seq<char>>) -> Seq<Seq<char>>
    decreases extra.len(),
{
    if extra.len() == 0 {
        paths
    } else {
        let e = extra[0];
        let next = if e.len() > 0 && !paths.contains(e) {
            paths.push(e)
        } else {
            paths
        };
        merged_paths(next, extra.drop_first())
    }
}

fn holds(v: &Vec<String>, x: &String) -> (r: bool)
    ensures
        r == string_views(v@).contains(x@),
{
    let mut i: usize = 0;
    while i < v.len()
        invariant
            i <= v@.len(),
            forall|k: int| 0 <= k < i ==> #[trigger] v@[k]@ != x@,
        decreases v.len() - i,
    {
        if eq(chars_of(v[i].as_str()).as_slice(), chars_of(x.as_str()).as_slice()) {
            assert(string_views(v@)[i as int] == x@);
            return true;
        }
        i += 1;
    }
    assert(!string_views(v@).contains(x@)) by {
        if string_views(v@).contains(x@) {
            let k = choose|k: int| 0 <= k < string_views(v@).len() && string_views(v@)[k] == x@;
            assert(v@[k]@ == x@);
        }
    }
    false
}

/// Append to a PATH entry list the entries of `extra` it lacks (empty
/// entries skipped), keeping the order.
pub fn merge_path_entries(paths: Vec<String>, extra: Vec<String>) -> (r: Vec<String>)
    ensures
        string_views(r@) == merged_paths(string_views(paths@), string_views(extra@)),
{
    let mut out = paths;
    assert(string_views(extra@).skip(0) =~= string_views(extra@));
    let mut i: usize = 0;
    while i < extra.len()
        invariant
            i <= extra@.len(),
            merged_paths(string_views(paths@), string_views(extra@)) == merged_paths(
                string_views(out@),
                string_views(extra@).skip(i as int),
            ),
        decreases extra.len() - i,
    {
        let ghost rest = string_views(extra@).skip(i as int);
        assert(rest[0] == extra@[i as int]@);
        assert(rest.drop_first() =~= string_views(extra@).skip(i + 1));
        let e = &extra[i];
        let empty = chars_of(e.as_str()).len() == 0;
        if !empty && !holds(&out, e) {
            let ghost before = string_views(out@);
            out.push(string_of(chars_of(e.as_str()).as_slice()));
            assert(string_views(out@) =~= before.push(e@));
        }
        i += 1;
    }
    assert(string_views(extra@).skip(extra@.len() as int) =~= Seq::<Seq<char>>::empty());
    out
}

/// Law: merging keeps every existing entry in place and adds no entry
/// twice that was not there twice already.
pub proof fn lemma_merge_keeps_prefix(paths: Seq<Seq<char>>, extra: Seq<Seq<char>>)
    ensures
        merged_paths(paths, extra).len() >= paths.len(),
        merged_paths(paths, extra).take(paths.len() as int) == paths,
    decreases extra.len(),
{
    if extra.len() > 0 {
        let e = extra[0];
        let next = if e.len() > 0 && !paths.contains(e) {
            paths.push(e)
        } else {
            paths
        };
        lemma_merge_keeps_prefix(next, extra.drop_first());
        assert(merged_paths(paths, extra).take(paths.len() as int) =~= merged_paths(
            next,
            extra.drop_first(),
        ).take(next.len() as int).take(paths.len() as int));
    }
}

// ---------------------------------------------------------------------------
// Installing Node.js
// ---------------------------------------------------------------------------

/// `which::which(program).is_ok()`: whether `program` resolves on this
/// process's PATH. The answer depends on the machine; nothing is stated.
#[verifier::external_body]
fn on_path(program: &str) -> (r: bool) {
    which::which(program).is_ok()
}

/// The package manager command that installs Node.js: winget with the
/// Node.js LTS package on Windows, Homebrew elsewhere.
pub open spec fn node_installer_command(windows: bool) -> (Seq<char>, Seq<Seq<char>>) {
    if windows {
        (
            "winget"@,
            seq![
                "install"@,
                "OpenJS.NodeJS.LTS"@,
                "--silent"@,
                "--accept-package-agreements"@,
                "--accept-source-agreements"@,
            ],
        )
    } else {
        ("brew"@, seq!["install"@, "node"@])
    }
}

fn owned(s: &str) -> (r: String)
    ensures
        r@ == s@,
{
    string_of(chars_of(s).as_slice())
}

/// The package manager whose presence on the PATH decides whether Node.js
/// can be installed: `winget` on Windows, `brew` elsewhere.
pub fn installer_program(windows: bool) -> (r: &'static str)
    ensures
        r@ == node_installer_command(windows).0,
{
    if windows {
        proof {
            reveal_strlit("winget");
        }
        "winget"
    } else {
        proof {
            reveal_strlit("brew");
        }
        "brew"
    }
}

/// The install command given whether the package manager was `found` on
/// the PATH: the command when it was, none when it was not.
pub fn node_installer_for(windows: bool, found: bool) -> (r: Option<(String, Vec<String>)>)
    ensures
        r is Some == found,
        match r {
            Some((name, args)) => (name@, string_views(args@)) == node_installer_command(windows),
            None => true,
        },
{
    if !found {
        return None;
    }
    if windows {
        let args = vec![
            owned("install"),
            owned("OpenJS.NodeJS.LTS"),
            owned("--silent"),
            owned("--accept-package-agreements"),
            owned("--accept-source-agreements"),
        ];
        assert(string_views(args@) =~= node_installer_command(windows).1);
        Some((owned("winget"), args))
    } else {
        let args = vec![owned("install"), owned("node")];
        assert(string_views(args@) =~= node_installer_command(windows).1);
        Some((owned("brew"), args))
    }
}

/// The system package manager that can install Node.js on this host, when
/// it is on the PATH. Whether [`installer_program`] is found there depends
/// on the machine; what comes back is [`node_installer_for`] of that answer.
pub fn node_installer(windows: bool) -> (r: Option<(String, Vec<String>)>)
    ensures
        match r {
            Some((name, args)) => (name@, string_views(args@)) == node_installer_command(windows),
            None => true,
        },
{
    let program = installer_program(windows);
    let found = on_path(program);
    node_installer_for(windows, found)
}

/// The error of an install run: none when it succeeded, else
/// `<installer> install failed: <first output line or "no output">`, or the
/// reason it could not run.
pub open spec fn install_error_of(installer: Seq<char>, run: Result<CommandOutput, String>) -> Option<
    Seq<char>,
> {
    match run {
        Ok(o) => if o.success {
            None
        } else {
            Some(
                installer + " install failed: "@ + match first_line_of(o.stdout@, o.stderr@) {
                    Some(l) => l,
                    None => "no output"@,
                },
            )
        },
        Err(d) => Some(installer + " install failed: "@ + d@),
    }
}

/// The error of an install run through `installer`.
pub fn install_error(installer: &str, run: &Result<CommandOutput, String>) -> (r: Option<String>)
    ensures
        r.deep_view() == install_error_of(installer@, *run),
{
    match run {
        Ok(o) => {
            if o.success {
                return None;
            }
            let mut out = chars_of(installer);
            push_all(&mut out, lit(" install failed: ").as_slice());
            match first_output_line(o) {
                Some(l) => push_all(&mut out, chars_of(l.as_str()).as_slice()),
                None => push_all(&mut out, lit("no output").as_slice()),
            }
            Some(string_of(out.as_slice()))
        },
        Err(d) => {
            let mut out = chars_of(installer);
            push_all(&mut out, lit(" install failed: ").as_slice());
            push_all(&mut out, chars_of(d.as_str()).as_slice());
            Some(string_of(out.as_slice()))
        },
    }
}

/// The result of an install attempt with `installer`: failed when the
/// install errored, else installed; the error is the install error, or a
/// note that node is still unavailable in the re-probe.
pub fn node_install_result(installer: &str, install_error: Option<String>, report: HostDoctorReport) -> (r: NodeInstallResult)
    ensures
        r.outcome == (if install_error is Some {
            NodeInstallOutcome::Failed
        } else {
            NodeInstallOutcome::Installed
        }),
        r.installer.deep_view() == Some(installer@),
        r.error.deep_view() == match install_error.deep_view() {
            Some(e) => Some(e),
            None => if report.node.status != HostToolStatus::Available {
                Some("node still unavailable after install"@)
            } else {
                None
            },
        },
        tool_view(r.report.node) == tool_view(report.node),
        tool_view(r.report.npm) == tool_view(report.npm),
        r.report.npm_prefix.deep_view() == report.npm_prefix.deep_view(),
{
    let outcome = match install_error {
        Some(_) => NodeInstallOutcome::Failed,
        None => NodeInstallOutcome::Installed,
    };
    let report_ok = report.node.status == HostToolStatus::Available;
    let error = match install_error {
        Some(detail) => Some(detail),
        None => if !report_ok {
            Some(owned("node still unavailable after install"))
        } else {
            None
        },
    };
    NodeInstallResult { outcome, installer: Some(owned(installer)), error, report }
}

/// The result when no package manager can install Node.js.
pub fn no_package_manager_result(report: HostDoctorReport) -> (r: NodeInstallResult)
    ensures
        r.outcome == NodeInstallOutcome::NoPackageManager,
        r.installer is None,
        r.error is None,
        tool_view(r.report.node) == tool_view(report.node),
        tool_view(r.report.npm) == tool_view(report.npm),
        r.report.npm_prefix.deep_view() == report.npm_prefix.deep_view(),
{
    NodeInstallResult { outcome: NodeInstallOutcome::NoPackageManager, installer: None, error: None, report }
}

/// Law: an install result carries no error exactly when the install
/// succeeded and the re-probe finds node available.
pub proof fn lemma_install_error_iff_unhealthy(
    install_err: Option<Seq<char>>,
    node_status: HostToolStatus,
)
    ensures
        (match install_err {
            Some(e) => Some(e),
            None => if node_status != HostToolStatus::Available {
                Some("node still unavailable after install"@)
            } else {
                None
            },
        }) is None <==> (install_err is None && node_status == HostToolStatus::Available),
{
}

proof fn lemma_first_nonblank_shape(lines: Seq<Seq<char>>)
    ensures
        first_nonblank(lines) matches Some(l) ==> l.len() > 0,
    decreases lines.len(),
{
    if lines.len() > 0 && trim(lines[0]).len() == 0 {
        lemma_first_nonblank_shape(lines.drop_first());
    }
}

/// Law: a reported version line is never blank and holds at most 160
/// characters.
pub proof fn lemma_first_line_shape(stdout: Seq<char>, stderr: Seq<char>)
    ensures
        first_line_of(stdout, stderr) matches Some(l) ==> 0 < l.len() <= 160,
{
    lemma_first_nonblank_shape(split(stdout, '\n') + split(stderr, '\n'));
}

} // verus!
