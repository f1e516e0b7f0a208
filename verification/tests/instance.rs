use quota_tray::instance::{
    config_dir_basename, is_default, keyring_application, lock_path, parse, wants_set_key,
    InstanceName,
};

fn resolve(args: &[&str]) -> String {
    parse(args.iter().map(|s| s.to_string()).collect(), None).0
}

#[test]
fn empty_args_no_env_returns_default() {
    let s = resolve(&[]);
    assert_eq!(s, "");
}

#[test]
fn cli_flag_equals_form() {
    assert_eq!(resolve(&["--instance=codex"]), "codex");
}

#[test]
fn cli_flag_space_form() {
    assert_eq!(resolve(&["--instance", "openai"]), "openai");
}

#[test]
fn cli_flag_space_form_missing_value_falls_through() {
    assert_eq!(resolve(&["--instance"]), "");
}

#[test]
fn cli_flag_among_other_args() {
    assert_eq!(resolve(&["foo", "--instance=codex", "bar"]), "codex");
    assert_eq!(resolve(&["foo", "--instance", "codex", "bar"]), "codex");
}

#[test]
fn config_dir_basename_default() {
    assert!(is_default(""));
    assert_eq!(config_dir_basename(""), "llm-quota-tray");
    assert!(!is_default("codex"));
    assert_eq!(config_dir_basename("codex"), "llm-quota-tray-codex");
}

#[test]
fn env_names_the_instance_where_no_flag_does() {
    assert_eq!(parse(vec![], Some("openai")).0, "openai");
    assert_eq!(parse(vec!["--instance=codex".into()], Some("openai")).0, "codex");
}

#[test]
fn set_key_is_recognized() {
    assert!(wants_set_key(&vec!["--instance=codex".into(), "--set-key".into()]));
    assert!(!wants_set_key(&vec!["--instance=codex".into()]));
}

#[test]
fn instances_share_no_path() {
    assert_eq!(lock_path(Some("/run/user/1000"), ""), "/run/user/1000/llm-quota-tray.pid");
    assert_eq!(
        lock_path(Some("/run/user/1000"), "codex"),
        "/run/user/1000/llm-quota-tray-codex.pid"
    );
    assert_eq!(lock_path(None, ""), "/tmp/llm-quota-tray.pid");
    assert_eq!(keyring_application("codex"), "llm-quota-tray-codex");
}

#[test]
fn instance_name_is_set_once() {
    let mut name = InstanceName::unset();
    assert_eq!(name.name(), "");
    assert_eq!(name.init(vec!["--instance=a".into()], None), "a");
    name.init(vec!["--instance=b".into()], None);
    assert_eq!(name.name(), "a");
}

#[test]
fn a_value_neither_flags_nor_names_otherwise() {
    let args = |a: &[&str]| a.iter().map(|s| s.to_string()).collect::<Vec<String>>();
    assert_eq!(parse(args(&["--instance", "--set-key"]), None), ("--set-key".to_string(), false));
    assert_eq!(
        parse(args(&["--instance", "--instance=a"]), None),
        ("--instance=a".to_string(), false)
    );
    assert_eq!(
        parse(args(&["--instance", "--instance", "--set_api_key"]), None),
        ("--instance".to_string(), true)
    );
    assert_eq!(
        parse(args(&["--instance=a", "--instance", "b", "--set-key", "--instance"]), Some("c")),
        ("b".to_string(), true)
    );
    assert_eq!(parse(args(&["--instance", "b", "--instance="]), Some("c")), ("c".to_string(), false));
}
