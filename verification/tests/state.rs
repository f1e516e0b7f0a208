use quota_tray::burn::{BurnConfig, BurnResult, Sample, Window};
use quota_tray::config::Config;
use quota_tray::menu::{bar_id, burn_id, window_id, ERROR_ID, HEADER_ID, THROTTLED_ID};
use quota_tray::ratio::Ratio;
use quota_tray::render::{
    build_error_menu_state, build_menu_state, CHIP_STATUS, CHIP_TITLE,
};
use quota_tray::scheduler::next_interval;
use quota_tray::state::{
    clear_force_refresh_state, compute_next_interval, compute_wait_ms, is_screen_locked, now_ms,
    pricing_refresh_artifact, rand_jitter_ms, record_sample, short_circuit_interval, to_millis,
    AppState, BucketRank, Histories, BURN_MAX_SAMPLES,
};
use quota_tray::util::fmt_duration;

const NOW: i64 = 1_700_000_000_000;


fn w(label: &str, pct: i64, start: i64, end: i64) -> Window {
    Window {
        id: label.to_string(),
        total: 0,
        used: 0,
        remaining_pct: pct,
        start_at: start,
        reset_at: end,
        count_unit: None,
        currency: None,
        model: None,
    }
}

fn burn_pct(rate: f64, exhaust: bool) -> BurnResult {
    BurnResult {
        rate_per_hour: Ratio::from_double_bits(rate.to_bits()).unwrap(),
        mode: "pct",
        unit: "pct",
        exhaust_ms: if exhaust { Some(30 * 60_000) } else { None },
        remaining_ms: 4 * 3_600_000,
        exhaust_before_reset: exhaust,
        projected_pct_left: Ratio::from_u64(50),
    }
}

#[test]
fn menu_state_for_healthy_pair() {
    let now = NOW;
    let five_h = w("5h", 80, now - 60_000, now + 4 * 3_600_000);
    let weekly = w("weekly", 100, now - 86_400_000, now + 5 * 86_400_000);
    let burn_5h: Option<&BurnResult> = None;
    let burn_weekly: Option<&BurnResult> = None;
    let m = build_menu_state(
        "Coding Plan",
        &[(&five_h, burn_5h), (&weekly, burn_weekly)],
        None,
        false,
        0,
        false,
        None,
        now,
    );
    assert_eq!(m.item(HEADER_ID).unwrap().label, "Plan: Coding Plan");
    assert!(m.item(window_id(0)).unwrap().visible);
    assert!(m.item(bar_id(0)).unwrap().visible);
    assert!(!m.item(burn_id(0)).unwrap().visible);
    assert!(!m.item(THROTTLED_ID).unwrap().visible);
    assert!(!m.item(ERROR_ID).unwrap().visible);
}

#[test]
fn menu_state_for_warning_with_burn_row() {
    let now = NOW;
    let five_h = w("5h", 35, now - 60_000, now + 4 * 3_600_000);
    let weekly = w("weekly", 90, now - 86_400_000, now + 5 * 86_400_000);
    let burn_5h = burn_pct(60.0, true);
    let burn_weekly = burn_pct(2.0, false);
    let burn_5h_ref = Some(&burn_5h);
    let burn_weekly_ref = Some(&burn_weekly);
    let m = build_menu_state(
        "Token Plan",
        &[(&five_h, burn_5h_ref), (&weekly, burn_weekly_ref)],
        None,
        false,
        0,
        false,
        None,
        now,
    );
    assert!(m.item(burn_id(0)).unwrap().visible);
    assert!(m.item(burn_id(1)).unwrap().visible);
    assert!(m.item(burn_id(0)).unwrap().label.contains("⚠"));
    assert!(m.item(burn_id(1)).unwrap().label.contains("on pace"));
}

#[test]
fn menu_state_for_throttled() {
    let now = NOW;
    let five_h = w("5h", 0, now - 4 * 3_600_000, now + 3_600_000);
    let weekly = w("weekly", 90, now - 86_400_000, now + 5 * 86_400_000);
    let m = build_menu_state(
        "Coding Plan",
        &[(&five_h, None), (&weekly, None)],
        None,
        false,
        0,
        true,
        None,
        now,
    );
    assert!(m.item(THROTTLED_ID).unwrap().visible);
    assert_eq!(m.item(THROTTLED_ID).unwrap().label, "  ⚠ Throttled");
    assert!(!m.item(ERROR_ID).unwrap().visible);
}

#[test]
fn menu_state_for_stale_error() {
    let now = NOW;
    let five_h = w("5h", 80, now - 60_000, now + 4 * 3_600_000);
    let weekly = w("weekly", 90, now - 86_400_000, now + 5 * 86_400_000);
    let m = build_menu_state(
        "Coding Plan",
        &[(&five_h, None), (&weekly, None)],
        Some("API error 1004"),
        true,
        3 * 60_000,
        false,
        None,
        now,
    );
    let err = m.item(ERROR_ID).unwrap().label.clone();
    assert!(err.contains("API error 1004"));
    assert!(err.contains("showing cached data"));
    let row = m.item(window_id(0)).unwrap().label.clone();
    assert!(row.contains("last update 3m ago"));
}

#[test]
fn bucket_rank_transitions() {
    assert!(BucketRank::Warning > BucketRank::Normal);
    assert!(BucketRank::Throttled > BucketRank::Warning);
    assert!(BucketRank::Normal < BucketRank::Warning);
    assert!(BucketRank::NoData < BucketRank::Normal);
}

#[test]
fn bucket_rank_from_remaining() {
    assert_eq!(BucketRank::from_remaining(100), BucketRank::Normal);
    assert_eq!(BucketRank::from_remaining(50), BucketRank::Normal);
    assert_eq!(BucketRank::from_remaining(49), BucketRank::Warning);
    assert_eq!(BucketRank::from_remaining(1), BucketRank::Warning);
    assert_eq!(BucketRank::from_remaining(0), BucketRank::Throttled);
    assert_eq!(BucketRank::from_remaining(-5), BucketRank::Throttled);
}

#[test]
fn burn_cfg_default_in_tests() {
    let cfg = BurnConfig::default();
    assert!(cfg.enabled);
    assert!(cfg.min_history_ms > 0);
    assert!(cfg.lookback_ms > 0);
}

#[test]
fn compute_wait_ms_first_iteration_is_zero() {
    assert_eq!(compute_wait_ms(None, 0, NOW), 0);
    assert_eq!(compute_wait_ms(None, 120_000, NOW), 0);
}

#[test]
fn compute_wait_ms_remaining_interval() {
    let at = NOW - 60_000;
    let wait = compute_wait_ms(Some(at), 120_000, NOW);
    assert!(
        wait > 50_000 && wait <= 60_000,
        "expected ~60s remaining, got {wait}"
    );
}

#[test]
fn compute_wait_ms_saturates_at_zero() {
    let at = NOW - 200_000;
    let wait = compute_wait_ms(Some(at), 120_000, NOW);
    assert_eq!(wait, 0);
}

#[test]
fn compute_wait_ms_clamps_negative_elapsed() {
    let at = NOW + 5_000;
    let wait = compute_wait_ms(Some(at), 120_000, NOW);
    assert!(wait >= 1000);
}

#[test]
fn compute_next_interval_jitters_and_floors() {
    for i in 0..20u32 {
        let got = compute_next_interval(60_000, 600, rand_jitter_ms(i * 49_999_781));
        assert!(
            (60_000..=65_000).contains(&got),
            "expected 60..65s, got {got}"
        );
    }
}

#[test]
fn compute_next_interval_clamps_to_backoff() {
    for i in 0..20u32 {
        let got = compute_next_interval(999_000, 600, rand_jitter_ms(i * 49_999_781));
        assert!(
            (600_000..=605_000).contains(&got),
            "expected clamped to 600s + jitter, got {got}"
        );
    }
}

#[test]
fn compute_next_interval_floors_at_one_second() {
    for i in 0..20u32 {
        let got = compute_next_interval(0, 600, rand_jitter_ms(i * 49_999_781));
        assert!((1000..=5000).contains(&got), "expected 1..5s, got {got}");
    }
}

#[test]
fn chip_title_and_status_are_gjs_compatible() {
    assert_eq!(CHIP_TITLE, "", "the title must be empty");
    assert_eq!(CHIP_STATUS, "Active", "the status must be 'Active'");
}

#[test]
fn error_menu_state_shows_header_and_error_row() {
    let m = build_error_menu_state("Coding Plan", "No API key configured");
    assert_eq!(m.item(HEADER_ID).unwrap().label, "Plan: Coding Plan");
    assert!(m.item(ERROR_ID).unwrap().visible);
    let err_label = m.item(ERROR_ID).unwrap().label.clone();
    assert!(
        err_label.contains("No API key configured"),
        "error label must contain the full message; got {err_label}"
    );
    assert!(!m.item(window_id(0)).is_some_and(|i| i.visible));
}

#[test]
fn error_menu_state_unknown_plan() {
    let m = build_error_menu_state("Coding Plan", "Unknown plan: foo");
    let err = m.item(ERROR_ID).unwrap().label.clone();
    assert!(err.contains("Unknown plan: foo"));
}

#[test]
fn error_path_uses_unadapted_interval() {
    let unadapted = next_interval(120, 15, 600, 100, 60, 85, 0);
    let adapted = next_interval(120, 15, 600, 14, 60, 85, 0);
    assert_eq!(
        unadapted, 120,
        "unadapted error path: base only, no / / cut"
    );
    assert_eq!(adapted, 30, "comparison: same args, pct=14 → adapted /4");
    let unadapted_backoff = next_interval(120, 15, 600, 100, 60, 85, 2);
    assert_eq!(
        unadapted_backoff, 480,
        "base=120 × 2^2 = 480, clamped to max=600"
    );
}

#[test]
fn no_api_key_uses_full_gjs_message() {
    let m = build_error_menu_state("Coding Plan", "No API key configured");
    let err = m.item(ERROR_ID).unwrap().label.clone();
    assert!(
        err.contains("No API key configured"),
        "the full phrase is shown in the menu; got {err}"
    );
    assert!(!err.contains("configured: configured"), "no double-word");
}

#[test]
fn reset_countdown_is_duration_not_epoch() {
    let now = 1_700_000_000_000_i64;
    let remains_ms = 4 * 3_600_000 + 32 * 60_000;
    let label = fmt_duration(remains_ms, false);
    assert_eq!(label, "4h 32m");

    let buggy_reset_at = remains_ms * 1000;
    let buggy_label = fmt_duration((buggy_reset_at - now).max(0), false);
    assert_eq!(
        fmt_duration(remains_ms, false),
        "4h 32m",
        "the correct math is `remains_ms`, not `remains_ms * 1000 - now`"
    );
    assert!(
        !buggy_label.contains("1y"),
        "the buggy math (epoch seconds) gave '{buggy_label}'"
    );
}

fn fresh_window(used: i64, pct: i64, start_at: i64, reset_at: i64) -> Window {
    Window {
        id: "w".to_string(),
        total: 1000,
        used,
        remaining_pct: pct,
        start_at,
        reset_at,
        count_unit: None,
        currency: None,
        model: None,
    }
}

#[test]
fn record_sample_appends_to_empty_history() {
    let mut h: Vec<Sample> = Vec::new();
    record_sample(&mut h, &fresh_window(0, 100, 1000, 2000), NOW);
    assert_eq!(h.len(), 1);
    assert_eq!(h[0].used, 0);
    assert_eq!(h[0].remaining_pct, 100);
}

#[test]
fn record_sample_appends_to_non_empty_history() {
    let mut h: Vec<Sample> = Vec::new();
    record_sample(&mut h, &fresh_window(0, 100, 1000, 2000), NOW);
    record_sample(&mut h, &fresh_window(1, 99, 1000, 2000), NOW);
    assert_eq!(h.len(), 2);
    assert_eq!(h[1].used, 1);
    assert_eq!(h[1].remaining_pct, 99);
}

#[test]
fn record_sample_does_not_clear_on_normal_consumption() {
    let mut h: Vec<Sample> = Vec::new();
    record_sample(&mut h, &fresh_window(0, 100, 1000, 2000), NOW);
    for i in 1..=10 {
        record_sample(&mut h, &fresh_window(i, 100 - i, 1000, 2000), NOW);
    }
    assert_eq!(
        h.len(),
        11,
        "normal monotonic consumption must not clear history"
    );
}

#[test]
fn record_sample_does_not_clear_on_one_pct_drop() {
    let mut h: Vec<Sample> = Vec::new();
    record_sample(&mut h, &fresh_window(0, 100, 1000, 2000), NOW);
    record_sample(&mut h, &fresh_window(1, 99, 1000, 2000), NOW);
    assert_eq!(h.len(), 2);
}

#[test]
fn record_sample_clears_history_on_start_at_change() {
    let mut h: Vec<Sample> = Vec::new();
    record_sample(&mut h, &fresh_window(0, 100, 1000, 2000), NOW);
    record_sample(&mut h, &fresh_window(1, 99, 1000, 2000), NOW);
    record_sample(&mut h, &fresh_window(2, 98, 1000, 2000), NOW);
    assert_eq!(h.len(), 3);
    record_sample(&mut h, &fresh_window(0, 100, 2000, 3000), NOW);
    assert_eq!(
        h.len(),
        1,
        "history must be cleared on epoch rollover"
    );
    assert_eq!(h[0].start_at, 2000);
    assert_eq!(h[0].used, 0);
}

#[test]
fn record_sample_clears_history_when_used_drops_by_2_or_more() {
    let mut h: Vec<Sample> = Vec::new();
    record_sample(&mut h, &fresh_window(500, 50, 1000, 2000), NOW);
    record_sample(&mut h, &fresh_window(501, 49, 1000, 2000), NOW);
    assert_eq!(h.len(), 2);
    record_sample(&mut h, &fresh_window(0, 100, 1000, 2000), NOW);
    assert_eq!(
        h.len(),
        1,
        "history must be cleared when used drops by >= 2"
    );
    assert_eq!(h[0].used, 0);
}

#[test]
fn record_sample_clears_history_when_pct_drops_by_2_or_more() {
    let mut h: Vec<Sample> = Vec::new();
    record_sample(&mut h, &fresh_window(500, 50, 1000, 2000), NOW);
    record_sample(&mut h, &fresh_window(501, 49, 1000, 2000), NOW);
    record_sample(&mut h, &fresh_window(501, 0, 1000, 2000), NOW);
    assert_eq!(
        h.len(),
        1,
        "history must be cleared when pct drops by >= 2 (49 -> 0)"
    );
}

#[test]
fn record_sample_evicts_oldest_when_over_burn_max() {
    let mut h: Vec<Sample> = Vec::new();
    for i in 0..(BURN_MAX_SAMPLES + 1) {
        record_sample(&mut h, &fresh_window(i as i64, 100, 1000, 2000), NOW);
    }
    assert_eq!(
        h.len(),
        BURN_MAX_SAMPLES,
        "history must never exceed BURN_MAX_SAMPLES"
    );
    assert_eq!(h[0].used, 1);
    assert_eq!(h.last().unwrap().used, BURN_MAX_SAMPLES as i64);
}

#[test]
fn record_sample_evicts_multiple_when_far_over_burn_max() {
    let mut h: Vec<Sample> = Vec::new();
    for i in 0..(BURN_MAX_SAMPLES + 100) {
        record_sample(&mut h, &fresh_window(i as i64, 100, 1000, 2000), NOW);
    }
    assert_eq!(h.len(), BURN_MAX_SAMPLES);
}

#[test]
fn record_sample_clear_then_evict() {
    let mut h: Vec<Sample> = Vec::new();
    for i in 0..100 {
        record_sample(&mut h, &fresh_window(i, 100, 1000, 2000), NOW);
    }
    assert_eq!(h.len(), 100);
    record_sample(&mut h, &fresh_window(0, 100, 2000, 3000), NOW);
    assert_eq!(h.len(), 1);
    for i in 0..(BURN_MAX_SAMPLES + 5) {
        record_sample(&mut h, &fresh_window(i as i64, 100, 2000, 3000), NOW);
    }
    assert_eq!(h.len(), BURN_MAX_SAMPLES);
}

#[test]
fn app_state_default_has_screen_locked_false() {
    assert!(
        !AppState::default().screen_locked,
        "AppState::default().screen_locked must be false so absent ScreenSaver daemon does not gate polling"
    );
}

#[test]
fn is_screen_locked_returns_true_when_locked() {
    let s = AppState {
        screen_locked: true,
        ..AppState::default()
    };
    assert!(is_screen_locked(&s));
}

#[test]
fn is_screen_locked_returns_false_when_unlocked() {
    let s = AppState::default();
    assert!(!is_screen_locked(&s));
}

#[test]
fn is_screen_locked_does_not_mutate_state() {
    let mut s = AppState::default();
    s.offline = true;
    s.fail_streak = 3;
    let before = (s.offline, s.fail_streak, s.screen_locked);
    let _ = is_screen_locked(&s);
    assert_eq!(
        (s.offline, s.fail_streak, s.screen_locked),
        before,
        "is_screen_locked must be a pure read",
    );
}

#[test]
fn short_circuit_interval_equals_refresh_seconds_times_1000() {
    let mut cfg = Config::default();
    cfg.refresh_seconds = 120;
    assert_eq!(short_circuit_interval(&cfg), 120_000);
}

#[test]
fn short_circuit_interval_scales_with_refresh_seconds() {
    for secs in [1u64, 15, 30, 60, 120, 600, 3600] {
        let cfg = Config {
            refresh_seconds: secs,
            refresh_min_seconds: 15,
            refresh_max_backoff_seconds: 600,
            ..Config::default()
        };
        assert_eq!(
            short_circuit_interval(&cfg),
            secs * 1000,
            "short_circuit_interval must equal refresh_seconds * 1000 (secs={secs})",
        );
    }
}

#[test]
fn short_circuit_interval_does_not_apply_backoff() {
    let cfg = Config {
        refresh_seconds: 30,
        refresh_min_seconds: 999,
        refresh_max_backoff_seconds: 600,
        ..Config::default()
    };
    assert_eq!(
        short_circuit_interval(&cfg),
        30_000,
        "short_circuit_interval must ignore refresh_min_seconds (no backoff clamping)"
    );
}

#[test]
fn clear_force_refresh_state_zeros_fail_streak() {
    let mut s = AppState::default();
    s.fail_streak = 5;
    clear_force_refresh_state(&mut s);
    assert_eq!(s.fail_streak, 0, "must clear fail_streak");
}

#[test]
fn clear_force_refresh_state_clears_offline() {
    let mut s = AppState::default();
    s.offline = true;
    clear_force_refresh_state(&mut s);
    assert!(!s.offline, "must clear offline (the override is the whole point)");
}

#[test]
fn clear_force_refresh_state_does_not_touch_screen_locked() {
    let mut s = AppState::default();
    s.screen_locked = true;
    clear_force_refresh_state(&mut s);
    assert!(
        s.screen_locked,
        "clear_force_refresh_state must NOT clear screen_locked — the screenlock watcher owns that flag"
    );
}

#[test]
fn clear_force_refresh_state_does_not_touch_screen_locked_when_unlocked() {
    let mut s = AppState::default();
    let before = s.screen_locked;
    clear_force_refresh_state(&mut s);
    assert_eq!(s.screen_locked, before);
}

#[test]
fn clear_force_refresh_state_is_idempotent() {
    let mut s = AppState {
        offline: true,
        fail_streak: 7,
        ..AppState::default()
    };
    clear_force_refresh_state(&mut s);
    let snapshot = (
        s.offline,
        s.fail_streak,
        s.screen_locked,
        s.last_good_at,
        s.polls_since_pricing_refresh,
    );
    clear_force_refresh_state(&mut s);
    assert_eq!(
        (
            s.offline,
            s.fail_streak,
            s.screen_locked,
            s.last_good_at,
            s.polls_since_pricing_refresh,
        ),
        snapshot,
        "clear_force_refresh_state must be idempotent"
    );
}

#[test]
fn clear_force_refresh_state_clears_both_fields_atomically() {
    let mut s = AppState {
        offline: true,
        fail_streak: 4,
        ..AppState::default()
    };
    clear_force_refresh_state(&mut s);
    assert_eq!(s.fail_streak, 0, "must zero fail_streak");
    assert!(!s.offline, "must clear offline");
}

#[test]
fn intervals_are_exact_for_a_known_jitter() {
    assert_eq!(rand_jitter_ms(123_456_789), 1789);
    assert_eq!(compute_next_interval(60_000, 600, 1789), 61_789);
    assert_eq!(compute_next_interval(999_000, 600, 4999), 600_000);
    assert_eq!(compute_next_interval(0, 600, 3), 1000);
    assert_eq!(compute_next_interval(u64::MAX, u64::MAX, 5), u64::MAX);
    assert_eq!(to_millis(u64::MAX), u64::MAX);
}

#[test]
fn clocks_before_the_epoch_read_zero() {
    assert_eq!(now_ms(None), 0);
    assert_eq!(now_ms(Some(5)), 5);
    assert_eq!(now_ms(Some(u64::MAX)), i64::MAX);
}

#[test]
fn ranks_compare_as_they_are_ordered() {
    assert!(BucketRank::Throttled.worse_than(BucketRank::Warning));
    assert!(BucketRank::Normal.worse_than(BucketRank::NoData));
    assert!(!BucketRank::Warning.worse_than(BucketRank::Warning));
    assert!(!BucketRank::Normal.worse_than(BucketRank::Throttled));
}

#[test]
fn histories_are_kept_apart() {
    let mut a = fresh_window(1, 99, 1000, 2000);
    a.id = "5h".to_string();
    let mut b = fresh_window(7, 90, 1000, 2000);
    b.id = "weekly".to_string();
    let h = Histories::new().record(&a, 1).record(&b, 1).record(&a, 2);
    assert_eq!(h.get("5h").len(), 2);
    assert_eq!(h.get("weekly").len(), 1);
    assert_eq!(h.get("daily").len(), 0);
    a.start_at = 5000;
    let h = h.record(&a, 3);
    assert_eq!(h.get("5h").len(), 1);
    assert_eq!(h.get("weekly").len(), 1);
}

#[test]
fn prices_are_due_every_few_polls() {
    let mut cfg = Config::default();
    let mut s = AppState::default();
    s.has_client = true;
    assert_eq!(pricing_refresh_artifact(&cfg, &mut s), None);
    assert_eq!(s.polls_since_pricing_refresh, 0);
    cfg.pricing_endpoint = Some("https://p".to_string());
    assert_eq!(pricing_refresh_artifact(&cfg, &mut s), None);
    cfg.pricing_refresh_polls = Some(2);
    assert_eq!(pricing_refresh_artifact(&cfg, &mut s), None);
    assert_eq!(s.polls_since_pricing_refresh, 1);
    assert_eq!(
        pricing_refresh_artifact(&cfg, &mut s).as_deref(),
        Some("https://p")
    );
    assert_eq!(s.polls_since_pricing_refresh, 0);
    cfg.pricing_refresh_polls = Some(0);
    assert!(pricing_refresh_artifact(&cfg, &mut s).is_some());
}
