use vstd::prelude::*;
use crate::text::{contains_str, has_infix, lower_of, lowercase};

verus! {

/// A machine-readable error code and an optional hint for the user.
#[derive(Debug)]
pub struct ErrorCode {
    pub code: String,
    pub hint: Option<String>,
}

/// The code and hint for a failure message, matched on its lower-cased text.
pub open spec fn classified(msg: Seq<char>) -> (Seq<char>, Option<Seq<char>>) {
    let m = lower_of(msg);
    if has_infix(m, "file not found"@) {
        ("file_not_found"@, Some("check the file path"@))
    } else if has_infix(m, "empty diff file"@) || has_infix(m, "empty goal"@) {
        ("missing_input"@, None)
    } else if has_infix(m, "invalid --range"@) || has_infix(m, "invalid range"@) || has_infix(
        m,
        "invalid start"@,
    ) || has_infix(m, "invalid end"@) {
        ("invalid_args"@, None)
    } else if has_infix(m, "missing openai_api_key"@) {
        ("missing_api_key"@, Some("set OPENAI_API_KEY in env or .env"@))
    } else if has_infix(m, "timed out"@) || has_infix(m, "timeout"@) {
        ("timeout"@, Some("try increasing --timeout or check network"@))
    } else if has_infix(m, "unsupported provider"@) {
        ("provider_unsupported"@, None)
    } else if has_infix(m, "approval required"@) {
        ("approval_required"@, Some("re-run with --yes to approve"@))
    } else if has_infix(m, "blocked action"@) {
        ("blocked_action"@, None)
    } else if has_infix(m, "network"@) || has_infix(m, "dns"@) || has_infix(
        m,
        "connection refused"@,
    ) {
        ("network_error"@, None)
    } else if has_infix(m, "session not found"@) {
        ("session_not_found"@, None)
    } else {
        ("unknown"@, None)
    }
}

/// The view of an error code.
pub open spec fn code_view(e: ErrorCode) -> (Seq<char>, Option<Seq<char>>) {
    (
        e.code@,
        match e.hint {
            Some(h) => Some(h@),
            None => None,
        },
    )
}

fn code(c: &str, hint: Option<&str>) -> (r: ErrorCode)
    ensures
        r.code@ == c@,
        match hint {
            Some(h) => r.hint matches Some(x) && x@ == h@,
            None => r.hint is None,
        },
{
    ErrorCode {
        code: c.to_owned(),
        hint: match hint {
            Some(h) => Some(h.to_owned()),
            None => None,
        },
    }
}

/// Classifies a failure message for machine-readable output.
pub fn classify_error(message: &str) -> (r: ErrorCode)
    ensures
        code_view(r) == classified(message@),
{
    let l = lowercase(message);
    let m = l.as_str();
    if contains_str(m, "file not found") {
        code("file_not_found", Some("check the file path"))
    } else if contains_str(m, "empty diff file") || contains_str(m, "empty goal") {
        code("missing_input", None)
    } else if contains_str(m, "invalid --range") || contains_str(m, "invalid range")
        || contains_str(m, "invalid start") || contains_str(m, "invalid end") {
        code("invalid_args", None)
    } else if contains_str(m, "missing openai_api_key") {
        code("missing_api_key", Some("set OPENAI_API_KEY in env or .env"))
    } else if contains_str(m, "timed out") || contains_str(m, "timeout") {
        code("timeout", Some("try increasing --timeout or check network"))
    } else if contains_str(m, "unsupported provider") {
        code("provider_unsupported", None)
    } else if contains_str(m, "approval required") {
        code("approval_required", Some("re-run with --yes to approve"))
    } else if contains_str(m, "blocked action") {
        code("blocked_action", None)
    } else if contains_str(m, "network") || contains_str(m, "dns") || contains_str(
        m,
        "connection refused",
    ) {
        code("network_error", None)
    } else if contains_str(m, "session not found") {
        code("session_not_found", None)
    } else {
        code("unknown", None)
    }
}

/// The short code and hint for a failure message, matched mostly on its
/// exact text.
pub open spec fn derived_code(msg: Seq<char>) -> (Seq<char>, Option<Seq<char>>) {
    if has_infix(msg, "file not found"@) {
        ("file_not_found"@, None)
    } else if has_infix(msg, "empty diff file"@) || has_infix(msg, "empty prompt"@) || has_infix(
        msg,
        "empty goal"@,
    ) {
        ("missing_input"@, None)
    } else if has_infix(msg, "invalid --range"@) || has_infix(msg, "invalid range"@) {
        ("invalid_args"@, None)
    } else if has_infix(msg, "OPENAI_API_KEY"@) {
        ("missing_api_key"@, Some("set OPENAI_API_KEY in env or .env"@))
    } else if has_infix(msg, "timed out"@) {
        ("timeout"@, Some("try increasing --timeout"@))
    } else if has_infix(msg, "unsupported provider"@) {
        ("provider_unsupported"@, None)
    } else if has_infix(msg, "failed to parse"@) || has_infix(lower_of(msg), "parse error"@) {
        ("parse_error"@, None)
    } else if has_infix(lower_of(msg), "network"@) || has_infix(msg, "dns"@) || has_infix(
        msg,
        "Connection"@,
    ) {
        ("network_error"@, None)
    } else {
        ("unknown"@, None)
    }
}

/// The short code and hint for a failure message.
pub fn derive_error_code(message: &str) -> (r: ErrorCode)
    ensures
        code_view(r) == derived_code(message@),
{
    let m = message;
    if contains_str(m, "file not found") {
        return code("file_not_found", None);
    }
    if contains_str(m, "empty diff file") || contains_str(m, "empty prompt") || contains_str(
        m,
        "empty goal",
    ) {
        return code("missing_input", None);
    }
    if contains_str(m, "invalid --range") || contains_str(m, "invalid range") {
        return code("invalid_args", None);
    }
    if contains_str(m, "OPENAI_API_KEY") {
        return code("missing_api_key", Some("set OPENAI_API_KEY in env or .env"));
    }
    if contains_str(m, "timed out") {
        return code("timeout", Some("try increasing --timeout"));
    }
    if contains_str(m, "unsupported provider") {
        return code("provider_unsupported", None);
    }
    let l = lowercase(m);
    if contains_str(m, "failed to parse") || contains_str(l.as_str(), "parse error") {
        return code("parse_error", None);
    }
    if contains_str(l.as_str(), "network") || contains_str(m, "dns") || contains_str(m, "Connection") {
        return code("network_error", None);
    }
    code("unknown", None)
}

/// The message shown for a provider failure.
pub open spec fn mapped_message(msg: Seq<char>) -> Seq<char> {
    if has_infix(msg, "OPENAI_API_KEY"@) {
        "missing OPENAI_API_KEY (set in .env or environment)"@
    } else if has_infix(msg, "timed out"@) {
        "request timed out; try --timeout or check network"@
    } else {
        msg
    }
}

/// Rewrites a provider failure message into a friendlier one where one is
/// known; other messages pass unchanged.
pub fn map_provider_error(message: &str) -> (r: String)
    ensures
        r@ == mapped_message(message@),
{
    if contains_str(message, "OPENAI_API_KEY") {
        "missing OPENAI_API_KEY (set in .env or environment)".to_owned()
    } else if contains_str(message, "timed out") {
        "request timed out; try --timeout or check network".to_owned()
    } else {
        message.to_owned()
    }
}

/// Patterns that a generated script may not contain, in lower case.
pub open spec fn blocked_patterns() -> Seq<Seq<char>> {
    seq![
        "rm -rf /"@,
        "mkfs"@,
        "shutdown"@,
        "reboot"@,
        ":(){ :|:& };:"@,
        "dd if=/dev/zero"@,
        ">| /dev/sd"@,
    ]
}

/// A script is refused if its lower-cased text holds a blocked pattern,
/// pipes a download into a shell, or uses sudo.
pub open spec fn script_refused(text: Seq<char>) -> bool {
    let l = lower_of(text);
    (exists|i: int| 0 <= i < blocked_patterns().len() && has_infix(l, #[trigger] blocked_patterns()[i]))
        || (has_infix(l, "| sh"@) && (has_infix(l, "curl "@) || has_infix(l, "wget "@)))
        || has_infix(l, "sudo "@)
}

/// Checks a generated script before it may run; the error says why it is
/// refused.
pub fn validate_script_safety(text: &str) -> (r: Result<(), String>)
    ensures
        r is Ok <==> !script_refused(text@),
{
    let l = lowercase(text);
    let lower = l.as_str();
    let blocked: Vec<&str> = vec![
        "rm -rf /",
        "mkfs",
        "shutdown",
        "reboot",
        ":(){ :|:& };:",
        "dd if=/dev/zero",
        ">| /dev/sd",
    ];
    assert(blocked@.len() == 7);
    let mut i: usize = 0;
    while i < blocked.len()
        invariant
            l@ == lower_of(text@),
            lower@ == l@,
            blocked@.len() == blocked_patterns().len(),
            forall|j: int| 0 <= j < blocked@.len() ==> #[trigger] blocked@[j]@ == blocked_patterns()[j],
            i <= blocked@.len(),
            forall|j: int| 0 <= j < i ==> !has_infix(l@, #[trigger] blocked_patterns()[j]),
        decreases blocked@.len() - i,
    {
        let hit = contains_str(lower, blocked[i]);
        assert(blocked@[i as int]@ == blocked_patterns()[i as int]);
        if hit {
            let mut msg = "blocked action: script contains '".to_owned();
            msg.append(blocked[i]);
            msg.append("'");
            assert(has_infix(l@, blocked_patterns()[i as int]));
            return Err(msg);
        }
        i = i + 1;
    }
    if contains_str(lower, "| sh") && (contains_str(lower, "curl ") || contains_str(lower, "wget ")) {
        return Err("blocked action: piping remote into shell".to_owned());
    }
    if contains_str(lower, "sudo ") {
        return Err("blocked action: sudo requires explicit approval".to_owned());
    }
    Ok(())
}

} // verus!
