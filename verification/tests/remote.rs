use ocu::remote::{usage_fetch_failure, REMOTE_USAGE_SCRIPT};

#[test]
fn usage_script_should_support_codex_auth_fallback() {
    assert!(REMOTE_USAGE_SCRIPT.contains("$HOME/.codex/auth.json"));
    assert!(REMOTE_USAGE_SCRIPT.contains(".tokens.access_token"));
    assert!(REMOTE_USAGE_SCRIPT.contains(".tokens.account_id"));
}

#[test]
fn usage_script_reads_opencode_credentials_first() {
    let opencode = REMOTE_USAGE_SCRIPT.find("$HOME/.local/share/opencode/auth.json").unwrap();
    let codex = REMOTE_USAGE_SCRIPT.find("$HOME/.codex/auth.json").unwrap();
    assert!(opencode < codex);
    assert!(REMOTE_USAGE_SCRIPT.contains("https://chatgpt.com/backend-api/wham/usage"));
}

#[test]
fn fetch_failure_reports_trimmed_error_output() {
    assert_eq!(
        usage_fetch_failure("localhost", "\n  jq is missing \n", "exit status: 1"),
        "localhost usage fetch failed: jq is missing"
    );
}

#[test]
fn fetch_failure_falls_back_to_exit_status() {
    assert_eq!(
        usage_fetch_failure("remote build-box", " \n\t", "exit status: 255"),
        "remote build-box usage fetch failed: exit status: 255"
    );
}
