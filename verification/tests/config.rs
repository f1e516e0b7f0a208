use quota_tray::config::{
    config_path, config_path_for, default_refresh_min_seconds, default_user_agent, load,
    load_or_init, Config,
};
use quota_tray::instance::InstanceName;
use quota_tray::provider::{
    default_ring_colors, BucketColors, RingColorsRepr, DEFAULT_OUTER_COLOR,
};

/// A config file's text as a config; nothing where it is malformed.
fn read(text: &str) -> Option<Config> {
    let file: serde_json::Value = serde_json::from_str(text).ok()?;
    let string = |key: &str| Some(file.get(key)?.as_str()?.to_string());
    let mut cfg = Config::default();
    cfg.endpoint = string("endpoint")?;
    cfg.dashboard_url = string("dashboard_url")?;
    cfg.label = string("label")?;
    cfg.refresh_seconds = file.get("refresh_seconds")?.as_u64()?;
    cfg.refresh_max_backoff_seconds = file.get("refresh_max_backoff_seconds")?.as_u64()?;
    cfg.refresh_min_seconds = match file.get("refresh_min_seconds") {
        Some(v) => v.as_u64()?,
        None => default_refresh_min_seconds(),
    };
    Some(cfg)
}

fn flat(normal: &str, warning: &str, throttled: &str) -> RingColorsRepr {
    RingColorsRepr {
        inner: None,
        outer: None,
        normal: Some(normal.to_string()),
        warning: Some(warning.to_string()),
        throttled: Some(throttled.to_string()),
    }
}

fn inner(normal: &str, warning: &str, throttled: &str) -> BucketColors {
    BucketColors {
        normal: normal.to_string(),
        warning: warning.to_string(),
        throttled: throttled.to_string(),
    }
}

#[test]
fn defaults_when_file_does_not_exist() {
    let cfg = load(None);
    assert_eq!(cfg.refresh_seconds, 120);
    assert_eq!(
        cfg.refresh_min_seconds, 15,
        "default refresh_min_seconds must be 15"
    );
}

#[test]
fn refresh_min_seconds_field_is_optional_in_json() {
    let file = read(
        r#"{
            "endpoint": "https://example.invalid/coding",
            "dashboard_url": "https://example.invalid/dash",
            "label": "Coding Plan",
            "refresh_seconds": 120,
            "refresh_max_backoff_seconds": 600
        }"#,
    );
    assert!(file.is_some());
    let cfg = load(file);
    assert_eq!(cfg.label, "Coding Plan");
    assert_eq!(cfg.refresh_min_seconds, 15);
}

#[test]
fn per_instance_config_path() {
    let home = Some("/home/u");
    assert!(config_path_for(home, "").contains(".config/llm-quota-tray/config.json"));
    assert!(config_path_for(home, "codex").contains(".config/llm-quota-tray-codex/config.json"));
    assert!(config_path_for(home, "openai").contains(".config/llm-quota-tray-openai/config.json"));
}

#[test]
fn ring_colors_override_in_config() {
    let colors = RingColorsRepr {
        inner: Some(inner("#ff9900", "#ff5500", "#ff0000")),
        outer: Some("#1d8b3a".to_string()),
        normal: None,
        warning: None,
        throttled: None,
    }
    .into_colors();
    assert_eq!(colors.inner.normal, "#ff9900");
    assert_eq!(colors.inner.warning, "#ff5500");
    assert_eq!(colors.inner.throttled, "#ff0000");
    assert_eq!(colors.outer, "#1d8b3a");
}

#[test]
fn ring_colors_partial_override_inner_only() {
    let colors = RingColorsRepr {
        inner: Some(inner("#00ff00", "#ffff00", "#ff00ff")),
        outer: None,
        normal: None,
        warning: None,
        throttled: None,
    }
    .into_colors();
    assert_eq!(colors.inner.normal, "#00ff00");
    assert_eq!(colors.outer, DEFAULT_OUTER_COLOR);
}

#[test]
fn ring_colors_legacy_flat_shape_still_loads() {
    let colors = flat("#3a9d4d", "#f6d32d", "#e01b24").into_colors();
    assert_eq!(colors.inner.normal, "#3a9d4d");
    assert_eq!(colors.inner.warning, "#f6d32d");
    assert_eq!(colors.inner.throttled, "#e01b24");
    assert_eq!(colors.outer, DEFAULT_OUTER_COLOR);
}

#[test]
fn ring_colors_empty_object_uses_defaults() {
    let colors = RingColorsRepr {
        inner: None,
        outer: None,
        normal: None,
        warning: None,
        throttled: None,
    }
    .into_colors();
    let defaults = default_ring_colors();
    assert_eq!(colors.inner.normal, defaults.inner.normal);
    assert_eq!(colors.inner.warning, defaults.inner.warning);
    assert_eq!(colors.inner.throttled, defaults.inner.throttled);
    assert_eq!(colors.outer, defaults.outer);
    assert_eq!(colors.cached_hash, defaults.cached_hash);
}

#[test]
fn malformed_falls_back_to_defaults() {
    let file = read("this is not json");
    assert!(file.is_none());
    let cfg = load(file);
    assert_eq!(cfg.refresh_seconds, 120);
}

#[test]
fn load_or_init_writes_defaults_when_missing() {
    let (cfg, write) = load_or_init(false, None);
    assert!(write, "config should have been written");
    assert_eq!(cfg.refresh_seconds, 120);
}

#[test]
fn load_or_init_keeps_an_existing_file() {
    let mut file = Config::default();
    file.refresh_seconds = 7;
    let (cfg, write) = load_or_init(true, Some(file));
    assert!(!write);
    assert_eq!(cfg.refresh_seconds, 7);
    let (cfg, write) = load_or_init(true, None);
    assert!(!write);
    assert_eq!(cfg.refresh_seconds, 120);
}

#[test]
fn running_instance_decides_the_path() {
    let mut name = InstanceName::unset();
    name.init(vec!["--instance=codex".into()], None);
    assert_eq!(
        config_path(Some("/home/u"), &name),
        "/home/u/.config/llm-quota-tray-codex/config.json"
    );
    assert_eq!(default_user_agent(), "llm-quota-tray");
}

#[test]
fn only_a_slash_behind_a_name_shares_its_file() {
    let home = Some("/home/u");
    assert_ne!(config_path_for(home, "a"), config_path_for(home, "b"));
    assert_ne!(config_path_for(home, ""), config_path_for(home, "/"));
    assert_ne!(config_path_for(home, "a/"), config_path_for(home, "b/"));
    assert_eq!(config_path_for(home, "a"), config_path_for(home, "a/"));
}
