use quota_tray::fetch::{
    envelope_error, envelope_message, prepare_request, read_body, read_reply,
    sanitize_error_snippet, user_agent, FetchError, Reply,
};
use quota_tray::parse::parse_plan;
use quota_tray::provider::{AuthConfig, ErrorEnvelope, PlanShape, WindowShape};
use serde_json::Value;

fn json(text: &str) -> Value {
    serde_json::from_str(text).unwrap()
}

fn shape_with_envelope(env: ErrorEnvelope) -> PlanShape {
    PlanShape {
        entries_path: "/".to_string(),
        windows: vec![WindowShape {
            id: "primary".to_string(),
            field_prefix: "primary".to_string(),
            start_field: None,
            reset_field: None,
            start_unit_ms: 1,
            reset_unit_ms: 1,
            reset_is_absolute_epoch: false,
            count_unit: None,
            currency: None,
            pricing_model_path: None,
        }],
        error_envelope: Some(env),
    }
}

fn base_resp() -> ErrorEnvelope {
    ErrorEnvelope {
        code_path: "/base_resp/status_code".to_string(),
        message_path: "/base_resp/status_msg".to_string(),
        success_codes: vec![0],
    }
}

#[test]
fn parse_error_propagates() {
    let mut shape = shape_with_envelope(base_resp());
    shape.entries_path = "/model_remains".to_string();
    let v: Value = serde_json::from_str("{}").unwrap();
    assert!(parse_plan(&v, &shape, 0).is_err());
}

#[test]
fn empty_entry_returns_parse_error_not_panic() {
    let v = json(r#"{"model_remains": []}"#);
    let mut shape = shape_with_envelope(ErrorEnvelope {
        code_path: "/x".to_string(),
        message_path: "/y".to_string(),
        success_codes: vec![0],
    });
    shape.entries_path = "/model_remains".to_string();
    assert!(parse_plan(&v, &shape, 0).is_err());
}

#[test]
fn envelope_reports_non_success_code() {
    let v = json(r#"{"base_resp": {"status_code": 1004, "status_msg": "login fail: bad key"}}"#);
    let err = envelope_error(&v, Some(&base_resp()));
    assert_eq!(err.as_deref(), Some("API error 1004: login fail: bad key"));
}

#[test]
fn envelope_zero_code_is_not_an_error() {
    let v = json(r#"{"base_resp": {"status_code": 0, "status_msg": "ok"}}"#);
    let err = envelope_error(&v, Some(&base_resp()));
    assert_eq!(err, None);
}

#[test]
fn missing_envelope_path_returns_none() {
    let v = json(r#"{"model_remains": []}"#);
    let err = envelope_error(&v, Some(&base_resp()));
    assert_eq!(err, None);
}

#[test]
fn no_envelope_returns_none_for_any_body() {
    let v = json(r#"{"base_resp": {"status_code": 1004, "status_msg": "x"}}"#);
    let err = envelope_error(&v, None);
    assert_eq!(err, None);
}

#[test]
fn sanitize_truncates_long_bodies() {
    let body = "x".repeat(200);
    let sanitized = sanitize_error_snippet(&body);
    assert_eq!(
        sanitized.chars().count(),
        80,
        "snippet must be exactly 80 chars"
    );
}

#[test]
fn sanitize_passes_through_safe_text() {
    let body = "HTTP 404: endpoint not found";
    assert_eq!(sanitize_error_snippet(body), body);
}

#[test]
fn sanitize_redacts_bearer_lines() {
    let body = "Authorization: Bearer sk-abc123-secret";
    let sanitized = sanitize_error_snippet(body);
    assert!(
        !sanitized.contains("sk-abc123"),
        "credential value must not appear in sanitized output; got {sanitized:?}"
    );
    assert!(
        sanitized.contains("[redacted line]"),
        "redacted-line marker must replace the credential line; got {sanitized:?}"
    );
}

#[test]
fn sanitize_redacts_authorization_lines() {
    let body = "X-Auth: authorization: sk-test";
    let sanitized = sanitize_error_snippet(body);
    assert!(!sanitized.contains("sk-test"));
    assert!(sanitized.contains("[redacted line]"));
}

#[test]
fn sanitize_redacts_api_key_lines() {
    let body1 = "api-key: abc-def-ghi";
    let body2 = "x-api_key=secret123";
    for body in [body1, body2] {
        let sanitized = sanitize_error_snippet(body);
        assert!(
            !sanitized.contains("abc-def") && !sanitized.contains("secret123"),
            "api-key/api_key lines must be redacted; got {sanitized:?}"
        );
    }
}

#[test]
fn sanitize_redacts_token_lines() {
    let body = "x-auth-token: tok_abc_def_ghi";
    let sanitized = sanitize_error_snippet(body);
    assert!(!sanitized.contains("tok_abc"));
    assert!(sanitized.contains("[redacted line]"));
}

#[test]
fn sanitize_redaction_is_case_insensitive() {
    let body = "BEARER sk-upper";
    let sanitized = sanitize_error_snippet(body);
    assert!(!sanitized.contains("sk-upper"));
}

#[test]
fn sanitize_preserves_lines_without_triggers() {
    let body = "HTTP 503\nService Unavailable\nPlease retry later";
    let sanitized = sanitize_error_snippet(body);
    assert_eq!(sanitized, body);
}

#[test]
fn sanitize_handles_mixed_lines() {
    let body = "HTTP 401\nAuthorization: Bearer sk-abc\nPlease authenticate";
    let sanitized = sanitize_error_snippet(body);
    assert!(!sanitized.contains("sk-abc"));
    assert!(sanitized.contains("HTTP 401"));
    assert!(sanitized.contains("Please authenticate"));
}

#[test]
fn sanitize_handles_empty_body() {
    let sanitized = sanitize_error_snippet("");
    assert_eq!(sanitized, "");
}

#[test]
fn sanitize_preserves_unicode_in_safe_text() {
    let body = "é".repeat(80);
    let sanitized = sanitize_error_snippet(&body);
    assert_eq!(sanitized.chars().count(), 80);
    assert!(sanitized.chars().all(|c| c == 'é'));
}

#[test]
fn sanitize_redacts_partial_word_matches() {
    let body = "x-bearer-token: sk-test";
    let sanitized = sanitize_error_snippet(body);
    assert!(!sanitized.contains("sk-test"));
}

#[test]
fn sanitize_works_line_by_line() {
    assert_eq!(
        sanitize_error_snippet("a\nTOKEN=1\n\nb\n"),
        "a\n[redacted line]\n\nb\n"
    );
}

#[test]
fn request_carries_the_key_in_a_header() {
    let r = prepare_request("https://a/b", "k1", &AuthConfig::Bearer);
    assert_eq!(r.url, "https://a/b");
    assert_eq!(
        r.header,
        Some(("Authorization".to_string(), "Bearer k1".to_string()))
    );
}

#[test]
fn request_carries_the_key_in_the_url() {
    let auth = AuthConfig::QueryParam {
        name: "key".to_string(),
    };
    let r = prepare_request("https://a/b", "k 1", &auth);
    assert_eq!(r.url, "https://a/b?key=k%201");
    assert_eq!(r.header, None);
}

#[test]
fn user_agent_has_prefix_and_version() {
    assert_eq!(user_agent("llm-quota-tray", "1.2.3"), "llm-quota-tray/1.2.3");
}

#[test]
fn envelope_message_defaults_to_unknown_error() {
    assert_eq!(
        envelope_message(-7, None, &vec![0, 200]).as_deref(),
        Some("API error -7: unknown error")
    );
    assert_eq!(envelope_message(200, Some("fine"), &vec![0, 200]), None);
}

#[test]
fn envelope_code_that_is_no_integer_is_not_an_error() {
    let v = json(r#"{"base_resp": {"status_code": "1004"}}"#);
    assert_eq!(envelope_error(&v, Some(&base_resp())), None);
    let v = json(r#"{"base_resp": {"status_code": 1004.5}}"#);
    assert_eq!(envelope_error(&v, Some(&base_resp())), None);
}

fn answered(text: &str) -> Reply {
    Reply::Answered {
        bytes: text.as_bytes().to_vec(),
    }
}

#[test]
fn reply_with_windows_is_read() {
    let shape = shape_with_envelope(base_resp());
    let reply = answered(
        r#"{"primary_total_count": 10, "primary_usage_count": 4, "primary_remaining_percent": 60,
            "start_time": 5, "remains_time": 7}"#,
    );
    let windows = read_reply(&reply, &shape, 100).unwrap();
    assert_eq!(windows.len(), 1);
    assert_eq!(windows[0].id, "primary");
    assert_eq!(windows[0].total, 10);
    assert_eq!(windows[0].used, 4);
    assert_eq!(windows[0].remaining_pct, 60);
    assert_eq!(windows[0].start_at, 5);
    assert_eq!(windows[0].reset_at, 107);
}

#[test]
fn every_failure_has_its_message() {
    let mut shape = shape_with_envelope(base_resp());
    let err = read_reply(&Reply::Unreachable, &shape, 0).unwrap_err();
    assert!(matches!(err, FetchError::Unreachable));
    assert_eq!(err.message(), "HTTP request");

    let refused = Reply::Refused {
        status: "401 Unauthorized".to_string(),
        body: "bad token\nsorry".to_string(),
    };
    let err = read_reply(&refused, &shape, 0).unwrap_err();
    assert_eq!(err.message(), "HTTP 401 Unauthorized: [redacted line]\nsorry");

    let err = read_reply(&Reply::Incomplete, &shape, 0).unwrap_err();
    assert_eq!(err.message(), "decoding JSON body");
    let err = read_reply(&answered("{"), &shape, 0).unwrap_err();
    assert!(matches!(err, FetchError::Decoding));

    let err = read_reply(
        &answered(r#"{"base_resp": {"status_code": 1, "status_msg": "no"}}"#),
        &shape,
        0,
    )
    .unwrap_err();
    assert_eq!(err.message(), "API error 1: no");

    shape.entries_path = "/missing".to_string();
    let err = read_reply(&answered("{}"), &shape, 0).unwrap_err();
    assert_eq!(err.message(), "parsing payload");
}

#[test]
fn reported_errors_win_over_windows() {
    let shape = shape_with_envelope(base_resp());
    let v = json(r#"{"primary_remaining_percent": 60, "base_resp": {"status_code": 9}}"#);
    assert!(read_body(&v, &shape, 0).is_err());
}

#[test]
fn no_credential_word_survives() {
    let shown = sanitize_error_snippet("ok\nX-Api-Key: 1\nto\nken\nBEARER x");
    assert_eq!(shown, "ok\n[redacted line]\nto\nken\n[redacted line]");
    let low = shown.to_lowercase();
    for word in ["bearer", "authorization", "api-key", "api_key", "token"] {
        assert!(!low.contains(word));
    }
}
