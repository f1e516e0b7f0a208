use quota_tray::burn::{BurnResult, Window};
use quota_tray::ratio::Ratio;
use quota_tray::tray::{
    bar_markup, burn_label, burn_warning_label, fmt_reset, update, TrayState,
};

fn rate(x: f64) -> Ratio {
    Ratio::from_double_bits(x.to_bits()).unwrap()
}

#[test]
fn fmt_reset_units() {
    assert_eq!(fmt_reset(0), "now");
    assert_eq!(fmt_reset(30_000), "0m");
    assert_eq!(fmt_reset(60_000), "1m");
    assert_eq!(fmt_reset(3_600_000), "1h");
    assert_eq!(fmt_reset(3_900_000), "1h 5m");
    assert_eq!(fmt_reset(86_400_000), "1d 0h");
    assert_eq!(fmt_reset(90_000_000), "1d 1h");
    assert_eq!(fmt_reset(7 * 86_400_000), "7d 0h");
}

#[test]
fn bar_markup_full_and_empty() {
    assert_eq!(bar_markup(100), format!("  {}", "█".repeat(22)));
    assert_eq!(bar_markup(0),   format!("  {}", "░".repeat(22)));
    assert_eq!(bar_markup(50).chars().filter(|c| *c == '█').count(), 11);
}

#[test]
fn burn_label_pct() {
    let b = BurnResult {
        rate_per_hour: rate(15.0), mode: "pct", unit: "pct",
        exhaust_ms: None, remaining_ms: 14_400_000,
        exhaust_before_reset: false, projected_pct_left: rate(62.0),
    };
    let s = burn_label(&b);
    assert!(s.contains("62%"));
    assert!(s.contains("15%/h"));
    assert!(!s.contains("tok/h"));
}

#[test]
fn burn_label_token_thousands() {
    let b = BurnResult {
        rate_per_hour: rate(1234.0), mode: "token", unit: "token",
        exhaust_ms: None, remaining_ms: 14_400_000,
        exhaust_before_reset: false, projected_pct_left: rate(48.0),
    };
    let s = burn_label(&b);
    assert!(s.contains("48%"));
    assert!(s.contains("1.2k"));
}

#[test]
fn burn_warning_label_format() {
    let b = BurnResult {
        rate_per_hour: rate(60.0), mode: "pct", unit: "pct",
        exhaust_ms: Some(1_320_000), remaining_ms: 3_600_000,
        exhaust_before_reset: true, projected_pct_left: rate(0.0),
    };
    let s = burn_warning_label(&b);
    assert!(s.starts_with("⚠"));
    assert!(s.contains("60%/h"));
    assert!(s.contains("22m"));
}

#[test]
fn compact_rows_are_complete() {
    let window = Window {
        id: "5h".to_string(),
        total: 0,
        used: 0,
        remaining_pct: 80,
        start_at: 0,
        reset_at: 1000 + 3_900_000,
        count_unit: None,
        currency: None,
        model: None,
    };
    let burn = BurnResult {
        rate_per_hour: rate(2500.0),
        mode: "token",
        unit: "token",
        exhaust_ms: Some(3_900_999),
        remaining_ms: 7_200_000,
        exhaust_before_reset: true,
        projected_pct_left: rate(0.0),
    };
    let rows = update(
        "Coding Plan",
        &TrayState {
            five_h: Some(window),
            weekly: None,
            burn_5h: Some(burn),
            burn_weekly: None,
            error: Some("x".to_string()),
            now_ms: 1000,
        },
    );
    assert_eq!(rows.header, "Plan: Coding Plan");
    assert_eq!(rows.window_5h_label, "  5h: 80% left · resets in 1h 5m");
    assert_eq!(rows.window_5h_bar, bar_markup(80));
    assert_eq!(rows.window_weekly_label, "");
    assert_eq!(rows.window_weekly_bar, "");
    assert_eq!(rows.burn_5h, "  ⚠ 2.5k tok/h → exhausts ~1h 5m before reset");
    assert_eq!(rows.burn_weekly, "");
    assert_eq!(rows.error, "  ⚠ Error: x");
}

#[test]
fn paces_round_halves_to_even() {
    let burn = |left: f64, per_hour: f64| BurnResult {
        rate_per_hour: rate(per_hour),
        mode: "pct",
        unit: "pct",
        exhaust_ms: None,
        remaining_ms: 14_400_000,
        exhaust_before_reset: false,
        projected_pct_left: rate(left),
    };
    assert_eq!(
        burn_label(&burn(62.5, 2.5)),
        "· on pace to have ~62% left at reset (2%/h)"
    );
    assert_eq!(
        burn_label(&burn(63.5, 3.5)),
        "· on pace to have ~64% left at reset (4%/h)"
    );
    assert_eq!(
        burn_label(&burn(-3.0, 0.0)),
        "· on pace to have ~-3% left at reset (0%/h)"
    );
}

#[test]
fn rates_are_read_as_doubles() {
    for per_hour in [
        0.0, 0.5, 999.4, 999.5, 1000.0, 1050.0, 1150.0, 1250.0, 1350.0, 2250.0, 99_949.999,
        123_456.789, 1e21, 1e300,
    ] {
        let b = BurnResult {
            rate_per_hour: rate(per_hour),
            mode: "token",
            unit: "token",
            exhaust_ms: None,
            remaining_ms: 14_400_000,
            exhaust_before_reset: false,
            projected_pct_left: rate(per_hour),
        };
        let text = if per_hour >= 1000.0 {
            format!("{:.1}k", per_hour / 1000.0)
        } else {
            format!("{per_hour:.0}")
        };
        assert_eq!(
            burn_label(&b),
            format!("· on pace to have ~{per_hour:.0}% left at reset ({text} tok/h)")
        );
    }
}
