use quota_tray::burn::BurnResult;
use quota_tray::ratio::Ratio;
use quota_tray::util::{
    bar_markup, burn_row_label, currency_symbol, fmt_age, fmt_cost, fmt_duration, fmt_rate,
    window_label,
};

fn ratio(x: f64) -> Option<Ratio> {
    Ratio::from_double_bits(x.to_bits())
}

#[test]
fn fmt_duration_units() {
    assert_eq!(fmt_duration(0, true), "0m");
    assert_eq!(fmt_duration(60_000, true), "1m");
    assert_eq!(fmt_duration(3_600_000, true), "1h");
    assert_eq!(fmt_duration(3_900_000, true), "1h 5m");
    assert_eq!(fmt_duration(86_400_000, true), "1d");
    assert_eq!(fmt_duration(86_400_000 + 3_600_000, true), "1d 1h");
    assert_eq!(fmt_duration(2 * 86_400_000 + 3_600_000, true), "2d 1h");
    assert_eq!(fmt_duration(60_000 - 1, false), "1m");
    assert_eq!(fmt_duration(2 * 3_600_000 - 1, false), "2h");
    assert_eq!(fmt_duration(2 * 3_600_000 + 30 * 60_000, false), "2h 30m");
}

#[test]
fn fmt_duration_clamps_negative() {
    assert_eq!(fmt_duration(-100, true), "0m");
    assert_eq!(fmt_duration(-100, false), "0m");
}

#[test]
fn fmt_age_units() {
    assert_eq!(fmt_age(0), "0s");
    assert_eq!(fmt_age(1_000), "1s");
    assert_eq!(fmt_age(60_000), "1m");
    assert_eq!(fmt_age(3_600_000), "1h");
    assert_eq!(fmt_age(3_900_000), "1h");
    assert_eq!(fmt_age(86_400_000), "24h");
}

#[test]
fn fmt_age_clamps_negative() {
    assert_eq!(fmt_age(-100), "0s");
}

#[test]
fn fmt_rate_units() {
    assert_eq!(fmt_rate(ratio(0.0).as_ref()), "0");
    assert_eq!(fmt_rate(ratio(40.0).as_ref()), "40");
    assert_eq!(fmt_rate(ratio(850.0).as_ref()), "850");
    assert_eq!(fmt_rate(ratio(999.5).as_ref()), "1000");
    assert_eq!(fmt_rate(ratio(1000.0).as_ref()), "1k");
    assert_eq!(fmt_rate(ratio(1200.0).as_ref()), "1.2k");
    assert_eq!(fmt_rate(ratio(1500.0).as_ref()), "1.5k");
    assert_eq!(fmt_rate(ratio(10000.0).as_ref()), "10k");
    assert_eq!(fmt_rate(ratio(12000.0).as_ref()), "12k");
    assert_eq!(fmt_rate(ratio(99500.0).as_ref()), "99.5k");
    assert_eq!(fmt_rate(ratio(100000.0).as_ref()), "100k");
    assert_eq!(fmt_rate(ratio(150000.0).as_ref()), "150k");
    assert_eq!(fmt_rate(ratio(2000.0).as_ref()), "2k");
    assert_eq!(fmt_rate(ratio(10000.0).as_ref()), "10k");
}

#[test]
fn fmt_rate_handles_nonfinite() {
    assert_eq!(fmt_rate(ratio(f64::NAN).as_ref()), "0");
    assert_eq!(fmt_rate(ratio(f64::INFINITY).as_ref()), "0");
    assert_eq!(fmt_rate(ratio(-1.0).as_ref()), "0");
}

fn burn_for_test(
    rate_per_hour: f64,
    projected_pct_left: f64,
    exhaust_before_reset: bool,
    unit: &'static str,
) -> BurnResult {
    BurnResult {
        rate_per_hour: ratio(rate_per_hour).unwrap(),
        mode: unit,
        unit,
        exhaust_ms: if exhaust_before_reset {
            Some(60 * 60_000)
        } else {
            None
        },
        remaining_ms: 5 * 60 * 60_000,
        exhaust_before_reset,
        projected_pct_left: ratio(projected_pct_left).unwrap(),
    }
}

#[test]
fn fmt_cost_units() {
    assert_eq!(fmt_cost(ratio(0.0).as_ref(), None), "$0");
    assert_eq!(fmt_cost(ratio(0.5).as_ref(), None), "$0.005");
    assert_eq!(fmt_cost(ratio(1.0).as_ref(), None), "$0.01");
    assert_eq!(fmt_cost(ratio(50.0).as_ref(), None), "$0.5");
    assert_eq!(fmt_cost(ratio(99.0).as_ref(), None), "$0.99");
    assert_eq!(fmt_cost(ratio(100.0).as_ref(), None), "$1");
    assert_eq!(fmt_cost(ratio(523.0).as_ref(), None), "$5.23");
    assert_eq!(fmt_cost(ratio(9999.0).as_ref(), None), "$99.99");
    assert_eq!(fmt_cost(ratio(10_000.0).as_ref(), None), "$100");
    assert_eq!(fmt_cost(ratio(12_345.0).as_ref(), None), "$123");
    assert_eq!(fmt_cost(ratio(999_500.0).as_ref(), None), "$9995");
}

#[test]
fn fmt_cost_handles_nonfinite() {
    assert_eq!(fmt_cost(ratio(f64::NAN).as_ref(), None), "$0");
    assert_eq!(fmt_cost(ratio(f64::INFINITY).as_ref(), None), "$0");
    assert_eq!(fmt_cost(ratio(-1.0).as_ref(), None), "$0");
    assert_eq!(fmt_cost(ratio(f64::NEG_INFINITY).as_ref(), None), "$0");
}

#[test]
fn fmt_cost_currency_usd() {
    assert_eq!(fmt_cost(ratio(100.0).as_ref(), Some("USD")), "$1");
    assert_eq!(fmt_cost(ratio(100.0).as_ref(), Some("usd")), "$1");
}

#[test]
fn fmt_cost_currency_eur() {
    assert_eq!(fmt_cost(ratio(100.0).as_ref(), Some("EUR")), "€1");
}

#[test]
fn fmt_cost_currency_jpy() {
    assert_eq!(fmt_cost(ratio(100.0).as_ref(), Some("JPY")), "¥1");
    assert_eq!(fmt_cost(ratio(100.0).as_ref(), Some("cny")), "¥1");
}

#[test]
fn fmt_cost_currency_empty_falls_back_to_dollar() {
    assert_eq!(fmt_cost(ratio(100.0).as_ref(), Some("")), "$1");
    assert_eq!(fmt_cost(ratio(100.0).as_ref(), None), "$1");
}

#[test]
fn fmt_cost_currency_unknown_falls_back_to_dollar() {
    assert_eq!(fmt_cost(ratio(100.0).as_ref(), Some("XYZ")), "$1");
}

#[test]
fn burn_row_label_default_uses_tok_h() {
    let b = burn_for_test(40.0, 48.0, false, "token");
    assert_eq!(
        burn_row_label(&b, None, None, None),
        "  · on pace to have ~48% left at reset (40 tok/h)"
    );
}

#[test]
fn burn_row_label_cents_uses_dollar_h() {
    let b = burn_for_test(40.0, 48.0, false, "token");
    assert_eq!(
        burn_row_label(&b, Some("cents"), Some("USD"), None),
        "  · on pace to have ~48% left at reset ($0.4/h)"
    );
}

#[test]
fn burn_row_label_milliunits_also_uses_dollar_h() {
    let b = burn_for_test(1000.0, 50.0, false, "token");
    assert_eq!(
        burn_row_label(&b, Some("milliunits"), None, None),
        "  · on pace to have ~50% left at reset ($10/h)"
    );
}

#[test]
fn burn_row_label_cents_warn_variant() {
    let b = burn_for_test(500.0, 0.0, true, "token");
    assert_eq!(
        burn_row_label(&b, Some("cents"), Some("USD"), None),
        "  ⚠ $5/h → exhausts ~1h before reset"
    );
}

#[test]
fn burn_row_label_cents_zero_rate_still_renders() {
    let b = burn_for_test(0.0, 100.0, false, "token");
    assert_eq!(
        burn_row_label(&b, Some("cents"), Some("USD"), None),
        "  · on pace to have ~100% left at reset ($0/h)"
    );
}

#[test]
fn burn_row_label_pct_mode_unchanged_by_count_unit() {
    let b = burn_for_test(15.0, 62.0, false, "pct");
    assert_eq!(
        burn_row_label(&b, Some("cents"), Some("USD"), None),
        "  · on pace to have ~62% left at reset (15/h)"
    );
}

#[test]
fn burn_row_label_appends_cost_fragment() {
    let b = burn_for_test(100_000.0, 50.0, false, "token");
    assert_eq!(
        burn_row_label(&b, None, None, Some("$0.4/h")),
        "  · on pace to have ~50% left at reset (100k tok/h · $0.4/h)"
    );
}

#[test]
fn burn_row_label_cost_fragment_works_in_warn_variant() {
    let b = burn_for_test(500_000.0, 0.0, true, "token");
    assert_eq!(
        burn_row_label(&b, None, None, Some("$5/h")),
        "  ⚠ 500k tok/h · $5/h → exhausts ~1h before reset"
    );
}

#[test]
fn burn_row_label_cost_fragment_works_in_currency_mode() {
    let b = burn_for_test(40.0, 48.0, false, "token");
    assert_eq!(
        burn_row_label(&b, Some("cents"), Some("USD"), Some("$0.0001/h")),
        "  · on pace to have ~48% left at reset ($0.4/h · $0.0001/h)"
    );
}

#[test]
fn burn_row_label_pct_mode_with_cost_fragment() {
    let b = burn_for_test(15.0, 62.0, false, "pct");
    assert_eq!(
        burn_row_label(&b, None, None, Some("$0.4/h")),
        "  · on pace to have ~62% left at reset (15/h · $0.4/h)"
    );
}

#[test]
fn bar_markup_clamps() {
    let s = bar_markup(80);
    assert!(s.contains("\u{2588}"));
    assert!(s.contains("\u{2591}"));
    assert!(s.starts_with("  ["));
    assert!(s.ends_with("]"));
    let filled_count = s.chars().filter(|c| *c == '\u{2588}').count();
    let empty_count = s.chars().filter(|c| *c == '\u{2591}').count();
    assert_eq!(
        filled_count + empty_count,
        22,
        "expected 22 chars between brackets, got {filled_count}+{empty_count}"
    );
    assert_eq!(s.chars().count(), 27);
}

#[test]
fn bar_markup_edge_cases() {
    assert_eq!(
        bar_markup(0).chars().filter(|c| *c == '\u{2588}').count(),
        0
    );
    assert_eq!(
        bar_markup(100).chars().filter(|c| *c == '\u{2588}').count(),
        22
    );
    assert_eq!(
        bar_markup(50).chars().filter(|c| *c == '\u{2588}').count(),
        11
    );
    assert_eq!(
        bar_markup(-5).chars().filter(|c| *c == '\u{2588}').count(),
        0
    );
    assert_eq!(
        bar_markup(150).chars().filter(|c| *c == '\u{2588}').count(),
        22
    );
}

#[test]
fn stale_window_rows_say_so() {
    let fresh = window_label("5h", 80, 4 * 3_600_000, false);
    assert_eq!(fresh, "  5h: 80% left · resets in 4h");
    assert_eq!(
        window_label("5h", 80, 4 * 3_600_000, true),
        "  5h: 80% left · resets in 4h (stale)"
    );
}

#[test]
fn currency_symbols() {
    assert_eq!(currency_symbol(Some("gbp")), "£");
    assert_eq!(currency_symbol(Some("Usd")), "$");
    assert_eq!(currency_symbol(None), "$");
    assert_eq!(currency_symbol(Some(" Eur ")), "€");
    assert_eq!(currency_symbol(Some("rMb")), "¥");
    assert_eq!(currency_symbol(Some("eurs")), "$");
}

#[test]
fn currency_symbols_stand_for_themselves() {
    for symbol in ["€", "£", "¥", "₩", "₹", "$"] {
        assert_eq!(currency_symbol(Some(symbol)), symbol);
    }
}

#[test]
fn costs_are_read_as_doubles() {
    assert_eq!(fmt_cost(ratio(0.125).as_ref(), None), "$0.0013");
    assert_eq!(fmt_cost(ratio(0.375).as_ref(), None), "$0.0037");
    assert_eq!(fmt_cost(ratio(0.875).as_ref(), None), "$0.0088");
    assert_eq!(fmt_cost(ratio(12.35).as_ref(), None), "$0.123");
    assert_eq!(fmt_cost(ratio(100.5).as_ref(), None), "$1");
    assert_eq!(fmt_cost(ratio(5e-324).as_ref(), None), "$0");
    assert_eq!(fmt_cost(ratio(f64::MAX).as_ref(), None), "$9223372036854775807");
}

/// Doubles over many magnitudes, decimal halves among them.
fn many_doubles() -> Vec<f64> {
    let mut v = Vec::new();
    let mut seed: u64 = 0x9e37_79b9_7f4a_7c15;
    for exponent in -6..9 {
        let scale = 10f64.powi(exponent);
        for _ in 0..6 {
            seed = seed.wrapping_mul(6_364_136_223_846_793_005).wrapping_add(1);
            v.push((seed >> 44) as f64 / 16.0 * scale);
            v.push((seed >> 52) as f64 * 5.0 * scale / 1000.0);
        }
    }
    v
}

fn trimmed(s: String) -> String {
    if s.contains('.') {
        s.trim_end_matches('0').trim_end_matches('.').to_string()
    } else {
        s
    }
}

#[test]
fn cost_texts_follow_double_arithmetic() {
    for cents in many_doubles() {
        let usd = cents / 100.0;
        let expected = if cents <= 0.0 {
            "0".to_string()
        } else if usd < 0.01 {
            trimmed(format!("{usd:.4}"))
        } else if usd < 1.0 {
            trimmed(format!("{usd:.3}"))
        } else if usd < 100.0 {
            trimmed(format!("{usd:.2}"))
        } else {
            format!("{}", usd.round() as i64)
        };
        assert_eq!(fmt_cost(ratio(cents).as_ref(), None), format!("${expected}"), "{cents}");
    }
}

#[test]
fn rate_texts_follow_double_arithmetic() {
    let mut rates = many_doubles();
    rates.extend([1050.0, 1350.0, 1949.9999999999998, 99_949.999_999_999_99, 99_999.999]);
    for rate in rates {
        let k = rate / 1000.0;
        let expected = if rate <= 0.0 {
            "0".to_string()
        } else if rate < 1000.0 {
            format!("{}", rate.round() as i64)
        } else if k >= 100.0 {
            format!("{}k", k.round() as i64)
        } else {
            let tenths = (k * 10.0).round() as i64;
            if tenths % 10 == 0 {
                format!("{}k", tenths / 10)
            } else {
                format!("{}.{}k", tenths / 10, tenths % 10)
            }
        };
        assert_eq!(fmt_rate(ratio(rate).as_ref()), expected, "{rate}");
    }
}

#[test]
fn fractions_round_to_the_nearest_double() {
    let whole = |n: u64| Ratio::from_u64(n);
    let third = Ratio::new(whole(1).numerator(), whole(3).numerator());
    let same = |a: &Ratio, x: f64| {
        let b = ratio(x).unwrap();
        !a.less_than(&b) && !b.less_than(a)
    };
    assert!(same(&third.to_double().unwrap(), 1.0 / 3.0));
    assert!(!same(&third, 1.0 / 3.0));
    let odd = whole((1 << 53) + 1);
    assert!(same(&odd.to_double().unwrap(), 9_007_199_254_740_992.0));
    assert!(same(&whole(u64::MAX).to_double().unwrap(), u64::MAX as f64));
    for x in [0.0, 5e-324, 2.2250738585072014e-308, 0.1, -0.7, 1e300, f64::MAX] {
        assert!(same(&ratio(x).unwrap().to_double().unwrap(), x));
    }
    let half_of_the_smallest = ratio(5e-324).unwrap().times(&ratio(0.5).unwrap());
    assert!(same(&half_of_the_smallest.to_double().unwrap(), 0.0));
    let above = ratio(5e-324).unwrap().times(&ratio(0.75).unwrap());
    assert!(same(&above.to_double().unwrap(), 5e-324));
    assert!(ratio(f64::MAX).unwrap().times(&whole(2)).to_double().is_none());
    assert!(same(&ratio(0.1).unwrap().plus(&ratio(0.2).unwrap()).to_double().unwrap(), 0.1 + 0.2));
    assert!(same(&ratio(0.1).unwrap().times(&ratio(0.7).unwrap()).to_double().unwrap(), 0.1 * 0.7));
}

#[test]
fn countdowns_round_up_and_ages_down() {
    assert_eq!(fmt_duration(60_001, false), "2m");
    assert_eq!(fmt_duration(119_999, true), "1m");
}
