//! The shell script that reads the OAuth credentials on the chosen machine
//! and fetches the usage payload, and what a failed fetch reports.

use vstd::prelude::*;

use crate::text::{spec_trim, trim};

verus! {

/// Bash script, fed to `bash -s` locally or over SSH, that reads the
/// OpenCode or Codex credentials and prints the usage endpoint's reply.
pub const REMOTE_USAGE_SCRIPT: &'static str = r#"
set -euo pipefail

opencode_auth="$HOME/.local/share/opencode/auth.json"
codex_auth="$HOME/.codex/auth.json"
if ! command -v jq >/dev/null 2>&1; then
    echo "jq is missing" >&2
    exit 1
fi

token=""
account=""
if [[ -r "$opencode_auth" ]]; then
    token="$(jq -r '.openai.access // empty' "$opencode_auth")"
    account="$(jq -r '.openai.accountId // empty' "$opencode_auth")"
fi
if [[ -z "$token" || -z "$account" ]] && [[ -r "$codex_auth" ]]; then
    token="$(jq -r '.tokens.access_token // empty' "$codex_auth")"
    account="$(jq -r '.tokens.account_id // empty' "$codex_auth")"
fi
if [[ -z "$token" || -z "$account" ]]; then
    echo "OpenAI OAuth token/account is missing in $opencode_auth or $codex_auth" >&2
    exit 1
fi

curl -fsS \
    -H "Authorization: Bearer ${token}" \
    -H "ChatGPT-Account-Id: ${account}" \
    -H "User-Agent: codex-cli" \
    "https://chatgpt.com/backend-api/wham/usage"
"#;

/// What a failed fetch from `source` reports: the script's error output,
/// trimmed, or, where that is blank, the exit status.
pub open spec fn spec_usage_fetch_failure(source: Seq<char>, stderr: Seq<char>, status: Seq<char>) -> Seq<char> {
    source + " usage fetch failed: "@ + (if spec_trim(stderr).len() == 0 { status } else { spec_trim(stderr) })
}

/// The message for a fetch from `source` whose script failed with the
/// error output `stderr` and the exit status `status`.
pub fn usage_fetch_failure(source: &str, stderr: &str, status: &str) -> (r: String)
    ensures
        r@ == spec_usage_fetch_failure(source@, stderr@, status@),
{
    let mut message = source.to_owned();
    message.append(" usage fetch failed: ");
    let detail = trim(stderr);
    if detail.is_empty() {
        message.append(status);
    } else {
        message.append(detail);
    }
    message
}

} // verus!
