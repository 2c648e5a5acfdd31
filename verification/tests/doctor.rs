use agentero::doctor::{
    auth_method, auth_from_run, auth_not_installed, first_output_line, install_error,
    merge_path_entries, needs_cli_fallback, no_package_manager_result, node_install_result,
    npm_prefix_from_run, parse_auth_output, parse_claude_auth_output, probed_tool, missing_tool,
    installer_program, node_installer_for, CodexAuthStatus, CommandOutput, HostDoctorReport, HostToolStatus, NodeInstallOutcome,
};

fn output(success: bool, code: i32, stdout: &str, stderr: &str) -> CommandOutput {
    CommandOutput {
        success,
        code: Some(code),
        stdout: stdout.to_string(),
        stderr: stderr.to_string(),
    }
}

#[test]
fn parses_authenticated_chatgpt_from_stderr() {
    let result = parse_auth_output(&output(true, 0, "", "Logged in using ChatGPT\n"));
    assert_eq!(result.status, CodexAuthStatus::Authenticated);
    assert_eq!(result.method.as_deref(), Some("chatgpt"));
    assert!(result.detail.is_none());
}

#[test]
fn parses_logged_out_without_returning_raw_output() {
    let result = parse_auth_output(&output(
        false,
        1,
        "",
        "Not logged in: private@example.com\n",
    ));
    assert_eq!(result.status, CodexAuthStatus::Unauthenticated);
    assert!(result.method.is_none());
    assert!(result.detail.is_none());
}

#[test]
fn leaves_unrecognized_auth_failure_unknown() {
    let result = parse_auth_output(&output(false, 7, "", "unexpected failure\n"));
    assert_eq!(result.status, CodexAuthStatus::Unknown);
    assert_eq!(
        result.detail.as_deref(),
        Some("status command exited with 7")
    );
}

#[test]
fn parses_claude_logged_in_json() {
    let result = parse_claude_auth_output(&output(
        true,
        0,
        "{\"loggedIn\": true, \"authMethod\": \"oauth_token\"}\n",
        "",
    ));
    assert_eq!(result.status, CodexAuthStatus::Authenticated);
    assert_eq!(result.method.as_deref(), Some("oauth_token"));
    assert!(result.detail.is_none());
}

#[test]
fn parses_claude_logged_out_json_even_on_failure_exit() {
    let result = parse_claude_auth_output(&output(false, 1, "{\"loggedIn\": false}\n", ""));
    assert_eq!(result.status, CodexAuthStatus::Unauthenticated);
    assert!(result.method.is_none());
    assert!(result.detail.is_none());
}

#[test]
fn falls_back_to_text_auth_parsing_for_unexpected_claude_output() {
    let result = parse_claude_auth_output(&output(
        false,
        1,
        "",
        "Not logged in: private@example.com\n",
    ));
    assert_eq!(result.status, CodexAuthStatus::Unauthenticated);
}

#[test]
fn claude_json_without_flag_uses_text_rules() {
    // JSON, but `loggedIn` is not a boolean: the exit decides.
    let result = parse_claude_auth_output(&output(true, 0, "{\"loggedIn\": \"yes\"}", ""));
    assert_eq!(result.status, CodexAuthStatus::Authenticated);
    assert_eq!(result.method.as_deref(), Some("authenticated"));
    let result = parse_claude_auth_output(&output(false, 3, "[1, 2]", ""));
    assert_eq!(result.status, CodexAuthStatus::Unknown);
    assert_eq!(result.detail.as_deref(), Some("status command exited with 3"));
}

#[test]
fn auth_methods_and_missing_exit_codes() {
    assert_eq!(auth_method("Logged in using an API key - sk-…"), "api-key");
    assert_eq!(auth_method("uses API-KEY"), "api-key");
    assert_eq!(auth_method("Logged in"), "authenticated");
    let no_code = CommandOutput {
        success: false,
        code: None,
        stdout: String::new(),
        stderr: "killed".to_string(),
    };
    let result = parse_auth_output(&no_code);
    assert_eq!(
        result.detail.as_deref(),
        Some("status command terminated without an exit status")
    );
    let negative = parse_auth_output(&output(false, -2, "", "boom"));
    assert_eq!(negative.detail.as_deref(), Some("status command exited with -2"));
    let result = parse_auth_output(&output(false, 1, "Login required", ""));
    assert_eq!(result.status, CodexAuthStatus::Unauthenticated);
}

#[test]
fn auth_runs_and_fallbacks() {
    let failed = auth_from_run(Err("timed out after 5s".to_string()));
    assert_eq!(failed.status, CodexAuthStatus::Unknown);
    assert_eq!(failed.detail.as_deref(), Some("timed out after 5s"));
    assert!(needs_cli_fallback(&failed));
    let ok = auth_from_run(Ok(output(true, 0, "Logged in using ChatGPT", "")));
    assert!(!needs_cli_fallback(&ok));
    let missing = auth_not_installed("codex-acp");
    assert_eq!(missing.status, CodexAuthStatus::NotApplicable);
    assert_eq!(missing.detail.as_deref(), Some("codex-acp is not installed"));
}

#[test]
fn first_output_line_prefers_stdout_and_trims() {
    let out = output(true, 0, "\n   \n  v20.11.1 \r\nmore", "warning");
    assert_eq!(first_output_line(&out).as_deref(), Some("v20.11.1"));
    let out = output(true, 0, "  \n", "\n  npm warn  \n");
    assert_eq!(first_output_line(&out).as_deref(), Some("npm warn"));
    let out = output(true, 0, " \n\t", "");
    assert_eq!(first_output_line(&out), None);
    let long = "x".repeat(200);
    let out = output(true, 0, &long, "");
    assert_eq!(first_output_line(&out).map(|l| l.chars().count()), Some(160));
}

#[test]
fn tool_probes() {
    let ok = probed_tool("/usr/bin/node".to_string(), Ok(output(true, 0, "v22.1.0\n", "")));
    assert_eq!(ok.status, HostToolStatus::Available);
    assert_eq!(ok.version.as_deref(), Some("v22.1.0"));
    assert_eq!(ok.resolved_path.as_deref(), Some("/usr/bin/node"));
    let bad = probed_tool("/usr/bin/node".to_string(), Ok(output(false, 127, "", "")));
    assert_eq!(bad.status, HostToolStatus::Unusable);
    assert_eq!(bad.detail.as_deref(), Some("exited with status 127"));
    let err = probed_tool("/usr/bin/node".to_string(), Err("failed to start: nope".to_string()));
    assert_eq!(err.detail.as_deref(), Some("failed to start: nope"));
    assert_eq!(missing_tool().status, HostToolStatus::Missing);
    assert_eq!(
        npm_prefix_from_run(&Ok(output(true, 0, "/opt/homebrew\n", ""))).as_deref(),
        Some("/opt/homebrew")
    );
    assert_eq!(npm_prefix_from_run(&Ok(output(false, 1, "/x", ""))), None);
}

fn report(node: HostToolStatus) -> HostDoctorReport {
    let mut n = missing_tool();
    n.status = node;
    HostDoctorReport { node: n, npm: missing_tool(), npm_prefix: None }
}

#[test]
fn install_results() {
    assert_eq!(install_error("brew", &Ok(output(true, 0, "", ""))), None);
    assert_eq!(
        install_error("brew", &Ok(output(false, 1, "", "Error: No such keg\n"))).as_deref(),
        Some("brew install failed: Error: No such keg")
    );
    assert_eq!(
        install_error("winget", &Ok(output(false, 1, "", ""))).as_deref(),
        Some("winget install failed: no output")
    );
    assert_eq!(
        install_error("brew", &Err("timed out after 300s".to_string())).as_deref(),
        Some("brew install failed: timed out after 300s")
    );
    let fine = node_install_result("brew", None, report(HostToolStatus::Available));
    assert_eq!(fine.outcome, NodeInstallOutcome::Installed);
    assert_eq!(fine.error, None);
    assert_eq!(fine.installer.as_deref(), Some("brew"));
    let still_missing = node_install_result("brew", None, report(HostToolStatus::Missing));
    assert_eq!(still_missing.outcome, NodeInstallOutcome::Installed);
    assert_eq!(
        still_missing.error.as_deref(),
        Some("node still unavailable after install")
    );
    let failed = node_install_result(
        "brew",
        Some("brew install failed: x".to_string()),
        report(HostToolStatus::Missing),
    );
    assert_eq!(failed.outcome, NodeInstallOutcome::Failed);
    assert_eq!(failed.error.as_deref(), Some("brew install failed: x"));
    let none = no_package_manager_result(report(HostToolStatus::Missing));
    assert_eq!(none.outcome, NodeInstallOutcome::NoPackageManager);
    assert!(none.installer.is_none() && none.error.is_none());
}

#[test]
fn path_entries_merge_without_duplicates() {
    let merged = merge_path_entries(
        vec!["/usr/bin".to_string(), "/bin".to_string()],
        vec![
            "/bin".to_string(),
            String::new(),
            "/opt/node/bin".to_string(),
            "/opt/node/bin".to_string(),
        ],
    );
    assert_eq!(
        merged,
        vec![
            "/usr/bin".to_string(),
            "/bin".to_string(),
            "/opt/node/bin".to_string()
        ]
    );
}

#[test]
fn installer_program_is_winget_on_windows_and_brew_elsewhere() {
    assert_eq!(installer_program(true), "winget");
    assert_eq!(installer_program(false), "brew");
}

#[test]
fn node_installer_for_follows_the_path_probe() {
    assert_eq!(node_installer_for(false, false), None);
    assert_eq!(node_installer_for(true, false), None);
    assert_eq!(
        node_installer_for(false, true),
        Some(("brew".to_string(), vec!["install".to_string(), "node".to_string()]))
    );
    let (name, args) = node_installer_for(true, true).unwrap();
    assert_eq!(name, "winget");
    assert_eq!(
        args,
        vec![
            "install",
            "OpenJS.NodeJS.LTS",
            "--silent",
            "--accept-package-agreements",
            "--accept-source-agreements"
        ]
    );
}
