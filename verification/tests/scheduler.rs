use quota_tray::scheduler::next_interval;

#[test]
fn idle_full_quota_uses_base_interval() {
    let s = next_interval(120, 15, 600, 100, 60, 85, 0);
    assert_eq!(s, 120);
}

#[test]
fn yellow_cuts_in_half() {
    let s = next_interval(120, 15, 600, 40, 60, 85, 0);
    assert_eq!(s, 60);
}

#[test]
fn red_quarters() {
    let s = next_interval(120, 15, 600, 14, 60, 85, 0);
    assert_eq!(s, 30);
}

#[test]
fn backoff_doubles_per_failure() {
    assert_eq!(next_interval(120, 15, 600, 100, 60, 85, 1), 240);
    assert_eq!(next_interval(120, 15, 600, 100, 60, 85, 2), 480);
    assert_eq!(next_interval(120, 15, 600, 100, 60, 85, 3), 600);
}

#[test]
fn backoff_respects_max() {
    let s = next_interval(120, 15, 600, 100, 60, 85, 10);
    assert_eq!(s, 600);
}

#[test]
fn adaptive_floor_at_min_seconds() {
    let s = next_interval(30, 15, 600, 0, 60, 85, 0);
    assert_eq!(s, 15);
}

#[test]
fn min_seconds_is_configurable() {
    let s = next_interval(30, 30, 600, 0, 60, 85, 0);
    assert_eq!(s, 30);
    let s = next_interval(120, 60, 600, 14, 60, 85, 0);
    assert_eq!(s, 60, "red /4 must respect min_seconds floor");
}

#[test]
fn min_seconds_zero_disables_floor() {
    let s = next_interval(30, 0, 600, 0, 60, 85, 0);
    assert_eq!(s, 7, "no floor: base/4 = 7.5 truncates to 7");
}

#[test]
fn backoff_stops_growing_after_eight_failures() {
    assert_eq!(next_interval(1, 0, 100_000, 100, 60, 85, 8), 256);
    assert_eq!(next_interval(1, 0, 100_000, 100, 60, 85, 9), 256);
    assert_eq!(next_interval(1, 0, 100_000, 100, 60, 85, u32::MAX), 256);
}

#[test]
fn a_low_backoff_cap_undercuts_the_floor() {
    assert_eq!(next_interval(120, 60, 30, 100, 60, 85, 1), 30);
}

#[test]
fn without_errors_the_floor_beats_a_low_cap() {
    assert_eq!(next_interval(30, 60, 10, 0, 60, 85, 0), 60);
}
