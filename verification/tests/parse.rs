use quota_tray::burn::Window;
use quota_tray::parse::{
    build_window, model_id_at, num, parse_plan, pct, truncate_double, EntryFields, ParseError,
};
use quota_tray::provider::{ErrorEnvelope, PlanShape, WindowShape};
use serde_json::Value;

fn json(text: &str) -> Value {
    serde_json::from_str(text).unwrap()
}

fn window(id: &str, field_prefix: &str, start_unit_ms: i64, reset_unit_ms: i64) -> WindowShape {
    WindowShape {
        id: id.to_string(),
        field_prefix: field_prefix.to_string(),
        start_field: None,
        reset_field: None,
        start_unit_ms,
        reset_unit_ms,
        reset_is_absolute_epoch: false,
        count_unit: None,
        currency: None,
        pricing_model_path: None,
    }
}

fn minimax_shape() -> PlanShape {
    PlanShape {
        entries_path: "/model_remains".to_string(),
        windows: vec![
            WindowShape {
                start_field: None,
                reset_field: None,
                count_unit: None,
                currency: None,
                pricing_model_path: None,
                ..window("5h", "current_interval", 1000, 1)
            },
            WindowShape {
                start_field: Some("weekly_start_time".to_string()),
                reset_field: Some("weekly_remains_time".to_string()),
                count_unit: None,
                currency: None,
                pricing_model_path: None,
                ..window("weekly", "current_weekly", 1000, 1)
            },
        ],
        error_envelope: Some(ErrorEnvelope {
            code_path: "/base_resp/status_code".to_string(),
            message_path: "/base_resp/status_msg".to_string(),
            success_codes: vec![0],
        }),
    }
}

fn parse_minimax(payload: &Value, now_ms: i64) -> (Window, Window) {
    let shape = minimax_shape();
    let mut windows = parse_plan(payload, &shape, now_ms)
        .expect("parse_plan(MiniMax shape) should succeed on the fixture");
    assert_eq!(windows.len(), 2,
               "MiniMax shape should produce exactly 2 windows");
    let weekly = windows.pop().expect("len checked");
    let five_h = windows.pop().expect("len checked");
    (five_h, weekly)
}

fn fixture() -> Value {
    json(r#"{
        "model_remains": [{
            "model_name": "general",
            "current_interval_total_count": 1000,
            "current_interval_usage_count": 200,
            "current_interval_remaining_percent": 80,
            "start_time": 1632000000,
            "remains_time": 16320000,
            "current_interval_status": 1,
            "current_weekly_total_count": 5000,
            "current_weekly_usage_count": 1000,
            "current_weekly_remaining_percent": 80,
            "weekly_start_time": 1631000000,
            "weekly_remains_time": 561600000,
            "current_weekly_status": 1
        }]
    }"#)
}

const TEST_NOW_MS: i64 = 1_632_001_680_000;

#[test]
fn parses_full_coding_plan() {
    let (five_h, weekly) = parse_minimax(&fixture(), TEST_NOW_MS);
    assert_eq!(five_h.id, "5h");
    assert_eq!(five_h.total, 1000);
    assert_eq!(five_h.used, 200);
    assert_eq!(five_h.remaining_pct, 80);
    assert_eq!(five_h.start_at, 1_632_000_000 * 1000);
    assert_eq!(five_h.reset_at, TEST_NOW_MS + 16_320_000);

    assert_eq!(weekly.id, "weekly");
    assert_eq!(weekly.total, 5000);
    assert_eq!(weekly.used, 1000);
    assert_eq!(weekly.remaining_pct, 80);
    assert_eq!(weekly.start_at, 1_631_000_000 * 1000);
    assert_eq!(weekly.reset_at, TEST_NOW_MS + 561_600_000);
}

#[test]
fn reset_at_minus_now_is_time_remaining() {
    let (five_h, weekly) = parse_minimax(&fixture(), TEST_NOW_MS);
    assert_eq!(five_h.reset_at - TEST_NOW_MS, 16_320_000);
    assert_eq!(weekly.reset_at - TEST_NOW_MS, 561_600_000);
    assert_eq!(five_h.reset_at - five_h.start_at, 18_000_000);
}

#[test]
fn clamps_pct_to_0_100() {
    let v = json(r#"{
        "model_remains": [{
            "model_name": "x",
            "current_interval_total_count": 0,
            "current_interval_usage_count": 0,
            "current_interval_remaining_percent": 150,
            "start_time": 0, "remains_time": 1,
            "current_interval_status": 1,
            "current_weekly_total_count": 0,
            "current_weekly_usage_count": 0,
            "current_weekly_remaining_percent": -50,
            "weekly_start_time": 0, "weekly_remains_time": 1,
            "current_weekly_status": 1
        }]
    }"#);
    let (five_h, weekly) = parse_minimax(&v, TEST_NOW_MS);
    assert_eq!(five_h.remaining_pct, 100);
    assert_eq!(weekly.remaining_pct, 0);
}

#[test]
fn live_coding_plan_shape_zero_counts() {
    let v = json(r#"{
        "model_remains": [{
            "model_name": "general",
            "current_interval_total_count": 0,
            "current_interval_usage_count": 0,
            "current_interval_remaining_percent": 80,
            "start_time": 1700000000,
            "remains_time": 1700018000,
            "current_interval_status": 1,
            "current_weekly_total_count": 0,
            "current_weekly_usage_count": 0,
            "current_weekly_remaining_percent": 90,
            "weekly_start_time": 1699900000,
            "weekly_remains_time": 1700504000,
            "current_weekly_status": 1
        }]
    }"#);
    let (five_h, weekly) = parse_minimax(&v, TEST_NOW_MS);
    assert_eq!(five_h.total, 0);
    assert_eq!(five_h.used, 0);
    assert_eq!(five_h.remaining_pct, 80);
    assert_eq!(weekly.total, 0);
    assert_eq!(weekly.remaining_pct, 90);
}

#[test]
fn parses_count_unit_and_currency() {
    let shape = PlanShape {
        entries_path: "/data".to_string(),
        windows: vec![
            WindowShape {
                start_field: None,
                reset_field: None,
                count_unit: Some("cents".to_string()),
                currency: Some("USD".to_string()),
                pricing_model_path: None,
                ..window("credits", "credit", 1000, 1)
            },
        ],
        error_envelope: None,
    };

    let v = json(r#"{
        "data": [{
            "credit_total_count": 1000,    
            "credit_usage_count": 250,     
            "credit_remaining_percent": 75,
            "credit_start_time": 1700000000,
            "credit_remains_time": 2592000000  
        }]
    }"#);
    let mut windows = parse_plan(&v, &shape, 1_700_001_000_000).unwrap();
    assert_eq!(windows.len(), 1);
    let w = windows.pop().unwrap();
    assert_eq!(w.id, "credits");
    assert_eq!(w.used, 250);
    assert_eq!(w.total, 1000);
    assert_eq!(w.remaining_pct, 75);
    assert_eq!(w.count_unit.as_deref(), Some("cents"));
    assert_eq!(w.currency.as_deref(), Some("USD"));
}

#[test]
fn parses_model_id_through_pricing_model_path() {
    let shape = PlanShape {
        entries_path: "/".to_string(),
        windows: vec![
            WindowShape {
                start_field: None,
                reset_field: None,
                count_unit: None,
                currency: None,
                pricing_model_path: Some("/model".to_string()),
                ..window("session", "session", 1000, 1)
            },
        ],
        error_envelope: None,
    };

    let v = json(r#"{
        "model": "openai/gpt-4o",
        "session_total_count": 0,
        "session_usage_count": 1234,
        "session_remaining_percent": 95,
        "start_time": 0,
        "remains_time": 86400000
    }"#);
    let mut windows = parse_plan(&v, &shape, 0).unwrap();
    let w = windows.pop().unwrap();
    assert_eq!(w.model.as_deref(), Some("openai/gpt-4o"));
    assert_eq!(w.used, 1234);
}

#[test]
fn parses_model_id_via_nested_pointer() {
    let shape = PlanShape {
        entries_path: "/data".to_string(),
        windows: vec![
            WindowShape {
                start_field: None,
                reset_field: None,
                count_unit: None,
                currency: None,
                pricing_model_path: Some("/model".to_string()),
                ..window("day", "day", 1000, 1)
            },
        ],
        error_envelope: None,
    };
    let v = json(r#"{
        "data": [{
            "model": "deepseek/deepseek-v4-flash",
            "day_total_count": 0,
            "day_usage_count": 500,
            "day_remaining_percent": 99,
            "start_time": 0,
            "remains_time": 86400000
        }]
    }"#);
    let mut windows = parse_plan(&v, &shape, 0).unwrap();
    let w = windows.pop().unwrap();
    assert_eq!(w.model.as_deref(), Some("deepseek/deepseek-v4-flash"));
}

#[test]
fn missing_model_field_yields_none() {
    let shape = PlanShape {
        entries_path: "/".to_string(),
        windows: vec![
            WindowShape {
                start_field: None,
                reset_field: None,
                count_unit: None,
                currency: None,
                pricing_model_path: Some("/model".to_string()),
                ..window("x", "x", 1, 1)
            },
        ],
        error_envelope: None,
    };
    let v = json(r#"{
        
        "x_total_count": 0,
        "x_usage_count": 100,
        "x_remaining_percent": 90,
        "start_time": 0,
        "remains_time": 1
    }"#);
    let mut windows = parse_plan(&v, &shape, 0).unwrap();
    let w = windows.pop().unwrap();
    assert!(w.model.is_none());
}

#[test]
fn legacy_shape_omits_count_unit() {
    let shape = PlanShape {
        entries_path: "/model_remains".to_string(),
        windows: vec![
            WindowShape {
                start_field: None,
                reset_field: None,
                count_unit: None,
                currency: None,
                pricing_model_path: None,
                ..window("5h", "current_interval", 1000, 1)
            },
        ],
        error_envelope: None,
    };
    let v = json(r#"{
        "model_remains": [{
            "current_interval_total_count": 1000,
            "current_interval_usage_count": 200,
            "current_interval_remaining_percent": 80,
            "start_time": 0,
            "remains_time": 1000
        }]
    }"#);
    let mut windows = parse_plan(&v, &shape, 0).unwrap();
    let w = windows.pop().unwrap();
    assert!(w.count_unit.is_none(), "legacy config ⇒ None");
    assert!(w.currency.is_none(), "legacy config ⇒ None");
}

#[test]
fn missing_model_remains_returns_error() {
    let v = json(r#"{}"#);
    let shape = minimax_shape();
    assert!(parse_plan(&v, &shape, 0).is_err());
}

#[test]
fn empty_model_remains_returns_error() {
    let v = json(r#"{"model_remains": []}"#);
    let shape = minimax_shape();
    assert!(parse_plan(&v, &shape, 0).is_err());
}

#[test]
fn float_seconds_coerced() {
    let v = json(r#"{
        "model_remains": [{
            "model_name": "x",
            "current_interval_total_count": 0,
            "current_interval_usage_count": 0,
            "current_interval_remaining_percent": 80,
            "start_time": 1632000000.7,
            "remains_time": 16320000.2,
            "current_interval_status": 1,
            "current_weekly_total_count": 0,
            "current_weekly_usage_count": 0,
            "current_weekly_remaining_percent": 90,
            "weekly_start_time": 1631000000.0,
            "weekly_remains_time": 561600000.9,
            "current_weekly_status": 1
        }]
    }"#);
    let (five_h, weekly) = parse_minimax(&v, TEST_NOW_MS);
    assert_eq!(five_h.start_at, 1_632_000_000 * 1000);
    assert_eq!(five_h.reset_at, TEST_NOW_MS + 16_320_000);
    assert_eq!(weekly.reset_at, TEST_NOW_MS + 561_600_000);
}

#[test]
fn single_window_shape_works() {
    let shape = PlanShape {
        entries_path: "/".to_string(),
        windows: vec![
            WindowShape {
                start_field: None,
                reset_field: None,
                count_unit: None,
                currency: None,
                pricing_model_path: None,
                ..window("daily", "daily", 1000, 1)
            },
        ],
        error_envelope: None,
    };
    let v = json(r#"{
        "daily_total_count": 1000,
        "daily_usage_count": 200,
        "daily_remaining_percent": 80,
        "start_time": 1700000000,
        "remains_time": 7200000
    }"#);
    let windows = parse_plan(&v, &shape, 1_700_000_000_000).unwrap();
    assert_eq!(windows.len(), 1);
    assert_eq!(windows[0].id, "daily");
    assert_eq!(windows[0].remaining_pct, 80);
    assert_eq!(windows[0].reset_at, 1_700_000_000_000 + 7_200_000);
}

#[test]
fn three_window_shape_works() {
    let shape = PlanShape {
        entries_path: "/".to_string(),
        windows: vec![
            WindowShape {
                start_field: None,
                reset_field: None,
                count_unit: None,
                currency: None,
                pricing_model_path: None,
                ..window("m5", "m5", 1, 1)
            },
            WindowShape {
                start_field: None,
                reset_field: None,
                count_unit: None,
                currency: None,
                pricing_model_path: None,
                ..window("h1", "h1", 1, 1)
            },
            WindowShape {
                start_field: None,
                reset_field: None,
                count_unit: None,
                currency: None,
                pricing_model_path: None,
                ..window("d1", "d1", 1, 1)
            },
        ],
        error_envelope: None,
    };
    let v = json(r#"{
        "m5_total_count": 0, "m5_usage_count": 0, "m5_remaining_percent": 80,
        "start_time": 0, "remains_time": 100,
        "h1_total_count": 0, "h1_usage_count": 0, "h1_remaining_percent": 50,
        "start_time": 0, "remains_time": 200,
        "d1_total_count": 0, "d1_usage_count": 0, "d1_remaining_percent": 25,
        "start_time": 0, "remains_time": 300
    }"#);
    let windows = parse_plan(&v, &shape, 1000).unwrap();
    assert_eq!(windows.len(), 3);
    assert_eq!(windows[0].id, "m5");
    assert_eq!(windows[0].remaining_pct, 80);
    assert_eq!(windows[1].id, "h1");
    assert_eq!(windows[1].remaining_pct, 50);
    assert_eq!(windows[2].id, "d1");
    assert_eq!(windows[2].remaining_pct, 25);
}

fn fields() -> EntryFields {
    EntryFields {
        total: Some(1000),
        used: Some(250),
        remaining_pct: None,
        start: Some(7),
        reset: Some(9),
        model: None,
    }
}

#[test]
fn missing_percentage_is_computed_from_the_counts() {
    let w = build_window(fields(), &window("a", "a", 1000, 1), 50);
    assert_eq!(w.remaining_pct, 75);
    let over = EntryFields { used: Some(3000), ..fields() };
    assert_eq!(build_window(over, &window("a", "a", 1, 1), 0).remaining_pct, 0);
    let none = EntryFields { total: None, ..fields() };
    assert_eq!(build_window(none, &window("a", "a", 1, 1), 0).remaining_pct, 0);
}

#[test]
fn absolute_resets_are_points_in_time() {
    let mut shape = window("a", "a", 1000, 1000);
    shape.reset_is_absolute_epoch = true;
    let w = build_window(fields(), &shape, 123);
    assert_eq!(w.start_at, 7000);
    assert_eq!(w.reset_at, 9000);
}

#[test]
fn out_of_range_times_saturate() {
    let far = EntryFields { start: Some(i64::MAX), reset: Some(i64::MIN), ..fields() };
    let w = build_window(far, &window("a", "a", 1000, 1000), -5);
    assert_eq!(w.start_at, i64::MAX);
    assert_eq!(w.reset_at, i64::MIN);
}

#[test]
fn numbers_are_read_as_integers() {
    let v = json(r#"{"i": -3, "f": -2.9, "big": 1e300, "huge": 18446744073709551615, "s": "4", "n": null}"#);
    assert_eq!(num(&v, "i"), -3);
    assert_eq!(num(&v, "f"), -2);
    assert_eq!(num(&v, "big"), i64::MAX);
    assert_eq!(num(&v, "huge"), i64::MAX);
    assert_eq!(num(&v, "s"), 0);
    assert_eq!(num(&v, "n"), 0);
    assert_eq!(num(&v, "missing"), 0);
    assert_eq!(pct(&v, "i"), 0);
    assert_eq!(pct(&v, "big"), 100);
    assert_eq!(truncate_double((1.5f64).to_bits()), 1);
    assert_eq!(truncate_double(f64::NAN.to_bits()), 0);
    assert_eq!(truncate_double(f64::INFINITY.to_bits()), 0);
}

#[test]
fn model_ids_are_texts() {
    let v = json(r#"{"a": [{"m": "x"}], "n": 5}"#);
    assert_eq!(model_id_at(&v, "/a/0/m").as_deref(), Some("x"));
    assert_eq!(model_id_at(&v, "/n"), None);
    assert_eq!(model_id_at(&v, "n"), None);
}

#[test]
fn missing_entry_names_its_path() {
    let shape = minimax_shape();
    let err = parse_plan(&json("{}"), &shape, 0).unwrap_err();
    match &err {
        ParseError::MissingEntry { path } => assert_eq!(path, "/model_remains"),
    }
    assert_eq!(err.message(), "payload missing entry at /model_remains");
}

#[test]
fn pointers_go_token_by_token() {
    let v = json(r#"{"a/b": "slash", "~1": "tilde", "": "empty", "list": ["x", ["y", "z"]]}"#);
    for (path, expected) in [
        ("/a~1b", Some("slash")),
        ("/~01", Some("tilde")),
        ("/", Some("empty")),
        ("/list/0", Some("x")),
        ("/list/1/1", Some("z")),
        ("/list/01", None),
        ("/list/+1", None),
        ("/list/2", None),
        ("/list/99999999999999999999999", None),
        ("/list/", None),
        ("/a/b", None),
        ("list", None),
        ("", None),
    ] {
        assert_eq!(model_id_at(&v, path).as_deref(), expected, "{path}");
    }
}
