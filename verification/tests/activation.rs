use quota_tray::activation::{parse_cli_token, resolve, ActivationToken};

#[test]
fn parse_cli_token_dash_dash_equals_form() {
    let args: Vec<String> = vec!["--token=abc123".into()];
    assert_eq!(parse_cli_token(args), Some("abc123".to_string()));
}

#[test]
fn parse_cli_token_space_separated_form() {
    let args: Vec<String> = vec!["--token".into(), "abc123".into()];
    assert_eq!(parse_cli_token(args), Some("abc123".to_string()));
}

#[test]
fn parse_cli_token_absent_returns_none() {
    let args: Vec<String> = vec!["--instance=foo".into()];
    assert_eq!(parse_cli_token(args), None);
    let empty: Vec<String> = vec![];
    assert_eq!(parse_cli_token(empty), None);
}

#[test]
fn parse_cli_token_empty_value_is_none() {
    let a: Vec<String> = vec!["--token=".into()];
    assert_eq!(parse_cli_token(a), None);
    let b: Vec<String> = vec!["--token".into(), "".into()];
    assert_eq!(parse_cli_token(b), None);
}

#[test]
fn parse_cli_token_among_other_flags() {
    let args: Vec<String> = vec![
        "--instance=codex".into(),
        "--set-key".into(),
        "--token=launch-xyz".into(),
    ];
    assert_eq!(parse_cli_token(args), Some("launch-xyz".to_string()));
}

#[test]
fn resolve_prefers_cli_over_env() {
    let args: Vec<String> = vec!["--token=cli-token".into()];
    assert_eq!(resolve(args, Some("env-token")), Some("cli-token".to_string()));
}

#[test]
fn resolve_falls_back_to_env() {
    let args: Vec<String> = vec!["--instance=codex".into()];
    assert_eq!(resolve(args, Some("env-token")), Some("env-token".to_string()));
}

#[test]
fn resolve_returns_none_when_neither_set() {
    let args: Vec<String> = vec!["--instance=codex".into()];
    assert_eq!(resolve(args, None), None);
}

#[test]
fn resolve_treats_empty_env_as_no_token() {
    let args: Vec<String> = vec!["--instance=codex".into()];
    assert_eq!(resolve(args, Some("")), None);
}

#[test]
fn token_is_captured_once() {
    let mut token = ActivationToken::unset();
    assert_eq!(token.get(), None);
    token.init(vec!["--token=first".into()], None);
    assert_eq!(token.get(), Some("first"));
    token.init(vec!["--token=second".into()], None);
    assert_eq!(token.get(), Some("first"));
}
