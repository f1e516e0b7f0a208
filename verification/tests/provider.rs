use quota_tray::provider::{
    default_inner_colors, default_ring_colors, default_shape, hash_colors,
    percent_encode_query_value, with_hash, AuthConfig, RingColorsRepr,
};

#[test]
fn percent_encode_query_value_leaves_alphanumeric_untouched() {
    assert_eq!(percent_encode_query_value("sk-abc123"), "sk-abc123");
}

#[test]
fn percent_encode_query_value_encodes_special_chars() {
    assert_eq!(percent_encode_query_value("a&b=c"), "a%26b%3Dc");
}

#[test]
fn percent_encode_query_value_encodes_spaces() {
    assert_eq!(percent_encode_query_value("a b"), "a%20b");
}

#[test]
fn percent_encode_query_value_encodes_non_ascii() {
    assert_eq!(percent_encode_query_value("café"), "caf%C3%A9");
}

#[test]
fn percent_encode_query_value_empty() {
    assert_eq!(percent_encode_query_value(""), "");
}

#[test]
fn auth_bearer() {
    let cfg = AuthConfig::Bearer;
    let (name, value) = cfg.build("sk-test");
    assert_eq!(name, "Authorization");
    assert_eq!(value, "Bearer sk-test");
}

#[test]
fn auth_header_custom_name() {
    let cfg = AuthConfig::Header {
        name: "x-api-key".to_string(),
    };
    let (name, value) = cfg.build("sk-test");
    assert_eq!(name, "x-api-key");
    assert_eq!(value, "sk-test");
}

#[test]
fn auth_custom_format() {
    let cfg = AuthConfig::Custom {
        name: "Authorization".to_string(),
        format: "Token {key}".to_string(),
    };
    let (name, value) = cfg.build("sk-test");
    assert_eq!(name, "Authorization");
    assert_eq!(value, "Token sk-test");
}

#[test]
fn auth_query_param_appends_to_endpoint() {
    let cfg = AuthConfig::QueryParam {
        name: "key".to_string(),
    };
    let (name, _) = cfg.build("sk-test");
    assert_eq!(name, "");
    let modified = cfg.apply_to_endpoint("https://api.example.com/v1/usage", "sk-test");
    assert_eq!(modified, "https://api.example.com/v1/usage?key=sk-test");
}

#[test]
fn auth_query_param_preserves_existing_query() {
    let cfg = AuthConfig::QueryParam {
        name: "key".to_string(),
    };
    let modified = cfg.apply_to_endpoint("https://api.example.com/v1/usage?foo=bar", "sk-test");
    assert_eq!(
        modified,
        "https://api.example.com/v1/usage?foo=bar&key=sk-test"
    );
}

#[test]
fn auth_query_param_encodes_special_chars_in_key() {
    let cfg = AuthConfig::QueryParam {
        name: "key".to_string(),
    };
    let modified = cfg.apply_to_endpoint("https://api.example.com/v1/usage", "sk-abc&def=ghi");
    assert_eq!(
        modified,
        "https://api.example.com/v1/usage?key=sk-abc%26def%3Dghi"
    );
}

#[test]
fn auth_default_is_bearer() {
    assert!(matches!(AuthConfig::default(), AuthConfig::Bearer));
}

#[test]
fn auth_custom_format_replaces_every_placeholder() {
    let cfg = AuthConfig::Custom {
        name: "X".to_string(),
        format: "{key}:{key}".to_string(),
    };
    assert_eq!(cfg.build("k").1, "k:k");
}

#[test]
fn hash_depends_on_every_color() {
    let base = default_ring_colors();
    assert_eq!(base.cached_hash, hash_colors(&base.inner, "#3584e4"));
    let other = with_hash(default_inner_colors(), "#3584e5".to_string());
    assert_ne!(base.cached_hash, other.cached_hash);
}

#[test]
fn flat_and_nested_colors_are_both_read() {
    let nested = RingColorsRepr {
        inner: None,
        outer: None,
        normal: Some("#111111".to_string()),
        warning: Some("#222222".to_string()),
        throttled: Some("#333333".to_string()),
    };
    let colors = nested.into_colors();
    assert_eq!(colors.inner.normal, "#111111");
    assert_eq!(colors.inner.warning, "#222222");
    assert_eq!(colors.inner.throttled, "#333333");
    assert_eq!(colors.outer, "#3584e4");
}

#[test]
fn neutral_shape_has_one_window() {
    let shape = default_shape();
    assert_eq!(shape.entries_path, "/");
    assert_eq!(shape.windows.len(), 1);
    assert_eq!(shape.windows[0].id, "primary");
    assert_eq!(shape.windows[0].start_unit_ms, 1000);
    assert_eq!(shape.windows[0].reset_unit_ms, 1);
}

#[test]
fn encoding_goes_piece_by_piece() {
    let whole = percent_encode_query_value("a b/é");
    assert_eq!(whole, "a%20b%2F%C3%A9");
    assert_eq!(
        whole,
        percent_encode_query_value("a b") + &percent_encode_query_value("/é")
    );
}
