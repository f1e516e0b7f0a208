use quota_tray::burn::Window;
use quota_tray::config::Config;
use quota_tray::icon::Bucket;
use quota_tray::menu::{
    window_id, MenuCommand, MenuInner, ERROR_ID, HEADER_ID, THROTTLED_ID,
};
use quota_tray::network::NetEvent;
use quota_tray::notify::Urgency;
use quota_tray::orchestrator::{
    after_dialog, no_dialog_message, on_event, starting_state, AfterDialog, Dialog, DialogResult,
    KeyEntry, LoopAction, LoopEvent, Schedule,
};
use quota_tray::pricing::PriceTable;
use quota_tray::refresh::{
    begin, force_refresh_now, on_fetched, on_key, show, threshold_notification, Begin, Fetched,
    Fresh, KeyProbe, Keyed, Outcome,
};
use quota_tray::render::{
    icon_file, offline_chip, render_initial, Chip, ChipIcon, MenuChange, StaticIcon,
};
use quota_tray::screenlock::LockEvent;
use quota_tray::state::{AppState, BucketRank};

const NOW: i64 = 1_700_000_000_000;

fn config() -> Config {
    let mut cfg = Config::default();
    cfg.label = "Coding Plan".to_string();
    cfg.refresh_seconds = 120;
    cfg.refresh_min_seconds = 15;
    cfg.refresh_max_backoff_seconds = 600;
    cfg.thresholds.yellow = 60;
    cfg.thresholds.red = 85;
    cfg
}

fn window(id: &str, pct: i64) -> Window {
    Window {
        id: id.to_string(),
        total: 0,
        used: 0,
        remaining_pct: pct,
        start_at: NOW - 60_000,
        reset_at: NOW + 4 * 3_600_000,
        count_unit: None,
        currency: None,
        model: None,
    }
}

fn menu_of(o: &Outcome) -> &MenuInner {
    match &o.menu {
        MenuChange::Install(m) => m,
        other => panic!("{other:?}"),
    }
}

fn chip_of(o: &Outcome) -> &Chip {
    o.chip.as_ref().unwrap()
}

fn finished(f: Fetched) -> Outcome {
    match f {
        Fetched::Finish(o) => o,
        other => panic!("{other:?}"),
    }
}

fn fresh(f: Fetched) -> Fresh {
    match f {
        Fetched::Show { fresh } => fresh,
        other => panic!("{other:?}"),
    }
}

#[test]
fn offline_polls_show_it_and_keep_the_pace() {
    let cfg = config();
    let mut s = starting_state(None);
    s.offline = true;
    s.fail_streak = 4;
    match begin(&cfg, &s) {
        Begin::Finish(o) => {
            assert_eq!(chip_of(&o).icon, ChipIcon::Static(StaticIcon::Offline));
            assert_eq!(chip_of(&o).tip, "Coding Plan — offline");
            assert!(matches!(o.menu, MenuChange::Offline));
            assert_eq!(o.interval_ms, 120_000);
        }
        other => panic!("{other:?}"),
    }
}

#[test]
fn locked_screens_skip_the_poll() {
    let cfg = config();
    let mut s = starting_state(None);
    s.screen_locked = true;
    for b in [begin(&cfg, &s), force_refresh_now(&cfg, &mut s)] {
        match b {
            Begin::Finish(o) => {
                assert!(o.chip.is_none());
                assert!(matches!(o.menu, MenuChange::Keep));
                assert_eq!(o.interval_ms, 120_000);
            }
            other => panic!("{other:?}"),
        }
    }
    assert!(s.screen_locked);
}

#[test]
fn forced_polls_override_being_offline() {
    let cfg = config();
    let mut s = starting_state(None);
    s.offline = true;
    s.fail_streak = 9;
    assert!(matches!(force_refresh_now(&cfg, &mut s), Begin::ProbeKey));
    assert!(!s.offline);
    assert_eq!(s.fail_streak, 0);
}

#[test]
fn key_probes_lead_to_a_fetch_or_an_error() {
    let cfg = config();
    let s = starting_state(None);
    match on_key(&cfg, &s, KeyProbe::Found("sk".to_string())) {
        Keyed::Fetch { api_key } => assert_eq!(api_key, "sk"),
        other => panic!("{other:?}"),
    }
    let error = |s: &AppState, p: KeyProbe| match on_key(&cfg, s, p) {
        Keyed::Finish(o) => {
            assert_eq!(o.interval_ms, 120_000);
            assert_eq!(chip_of(&o).icon, ChipIcon::Static(StaticIcon::Error));
            assert_eq!(chip_of(&o).tip, "Coding Plan — stale data");
            assert_eq!(menu_of(&o).item(HEADER_ID).unwrap().label, "Plan: Coding Plan");
            menu_of(&o).item(ERROR_ID).unwrap().label.clone()
        }
        other => panic!("{other:?}"),
    };
    assert_eq!(error(&s, KeyProbe::Missing), "  ⚠ Error: No API key configured");
    assert_eq!(
        error(&s, KeyProbe::TimedOut),
        "  ⚠ Error: Secret Service unavailable (keyring not ready) — will retry next refresh"
    );
    assert_eq!(
        error(&AppState::default(), KeyProbe::Found("sk".to_string())),
        "  ⚠ Error: HTTP client not initialized"
    );
}

#[test]
fn success_is_remembered_and_shown() {
    let cfg = config();
    let mut s = starting_state(None);
    s.fail_streak = 3;
    let f = fresh(on_fetched(&cfg, &mut s, Ok(vec![window("5h", 80), window("weekly", 90)]), NOW));
    assert_eq!(f.prev_rank, BucketRank::NoData);
    assert_eq!(s.fail_streak, 0);
    assert_eq!(s.last_good_at, NOW);
    let o = show(&cfg, &mut s, &f, None, NOW);
    assert_eq!(
        chip_of(&o).icon,
        ChipIcon::Ring { pct: 80, bucket: Bucket::Normal }
    );
    assert_eq!(chip_of(&o).tip, "Coding Plan — 80% remaining");
    assert!(o.notification.is_none());
    assert_eq!(o.interval_ms, 120_000);
    assert_eq!(
        menu_of(&o).item(window_id(0)).unwrap().label,
        "  5h: 80% left · resets in 4h"
    );
    assert!(!menu_of(&o).item(ERROR_ID).unwrap().visible);
    assert_eq!(s.histories.get("5h").len(), 1);
    assert_eq!(s.histories.get("weekly").len(), 1);
}

#[test]
fn exhaustion_is_shown_and_notified() {
    let cfg = config();
    let mut s = starting_state(None);
    let f = fresh(on_fetched(&cfg, &mut s, Ok(vec![window("5h", 70)]), NOW));
    show(&cfg, &mut s, &f, None, NOW);
    let f = fresh(on_fetched(&cfg, &mut s, Ok(vec![window("5h", 0)]), NOW + 1));
    let o = show(&cfg, &mut s, &f, None, NOW + 1);
    assert_eq!(chip_of(&o).icon, ChipIcon::Static(StaticIcon::Throttled));
    assert!(menu_of(&o).item(THROTTLED_ID).unwrap().visible);
    let n = o.notification.as_ref().unwrap();
    assert_eq!(n.tag, "throttled");
    assert_eq!(n.title, "Coding Plan — throttled");
    assert_eq!(n.body, "Quota exhausted. The menu shows when it resets.");
    assert_eq!(n.urgency, Urgency::Critical);
    assert_eq!(o.interval_ms, 30_000);
}

#[test]
fn only_changes_for_the_worse_are_notified() {
    let cfg = config();
    let n = threshold_notification(&cfg, BucketRank::Normal, BucketRank::Warning).unwrap();
    assert_eq!(n.tag, "warning");
    assert_eq!(n.title, "Coding Plan — running low");
    assert_eq!(n.body, "Usage reached 40% (threshold: 60%).");
    assert_eq!(n.urgency, Urgency::Normal);
    assert!(threshold_notification(&cfg, BucketRank::NoData, BucketRank::Throttled).is_none());
    assert!(threshold_notification(&cfg, BucketRank::Warning, BucketRank::Warning).is_none());
    assert!(threshold_notification(&cfg, BucketRank::Throttled, BucketRank::Normal).is_none());
}

#[test]
fn failures_show_old_windows_and_back_off() {
    let cfg = config();
    let mut s = starting_state(None);
    fresh(on_fetched(&cfg, &mut s, Ok(vec![window("5h", 80)]), NOW));
    let later = NOW + 3 * 60_000;
    let o = finished(on_fetched(&cfg, &mut s, Err("HTTP request".to_string()), later));
    assert_eq!(s.fail_streak, 1);
    assert!(s.last_good.is_some());
    assert_eq!(
        chip_of(&o).icon,
        ChipIcon::Ring { pct: 80, bucket: Bucket::Normal }
    );
    assert_eq!(chip_of(&o).tip, "Coding Plan — stale data (80%)");
    assert_eq!(
        menu_of(&o).item(ERROR_ID).unwrap().label,
        "  ⚠ Error: HTTP request (showing cached data)"
    );
    assert!(menu_of(&o)
        .item(window_id(0))
        .unwrap()
        .label
        .ends_with(" (stale) · last update 3m ago"));
    assert_eq!(o.interval_ms, 240_000);
    let o = finished(on_fetched(&cfg, &mut s, Err("HTTP request".to_string()), later));
    assert_eq!(o.interval_ms, 480_000);
}

#[test]
fn any_used_up_window_makes_old_data_look_exhausted() {
    let cfg = config();
    let mut s = starting_state(None);
    fresh(on_fetched(&cfg, &mut s, Ok(vec![window("5h", 80), window("weekly", 0)]), NOW));
    let o = finished(on_fetched(&cfg, &mut s, Err("x".to_string()), NOW));
    assert_eq!(chip_of(&o).icon, ChipIcon::Static(StaticIcon::Throttled));
}

#[test]
fn empty_answers_forget_old_windows() {
    let cfg = config();
    let mut s = starting_state(None);
    fresh(on_fetched(&cfg, &mut s, Ok(vec![window("5h", 80)]), NOW));
    let o = finished(on_fetched(&cfg, &mut s, Ok(vec![]), NOW));
    assert_eq!(
        menu_of(&o).item(ERROR_ID).unwrap().label,
        "  ⚠ Error: API returned no quota windows (showing cached data)"
    );
    assert!(s.last_good.is_none());
    assert_eq!(s.fail_streak, 1);
    let o = finished(on_fetched(&cfg, &mut s, Ok(vec![]), NOW));
    assert_eq!(chip_of(&o).icon, ChipIcon::Static(StaticIcon::Error));
    assert_eq!(chip_of(&o).tip, "Coding Plan — stale data (0%)");
}

#[test]
fn prices_are_fetched_when_due() {
    let mut cfg = config();
    cfg.pricing_endpoint = Some("https://p".to_string());
    cfg.pricing_refresh_polls = Some(1);
    let mut s = starting_state(None);
    match on_fetched(&cfg, &mut s, Ok(vec![window("5h", 80)]), NOW) {
        Fetched::FetchPrices { url, fresh } => {
            assert_eq!(url, "https://p");
            show(&cfg, &mut s, &fresh, Some(PriceTable::new()), NOW);
            assert!(s.price_table.is_some());
            show(&cfg, &mut s, &fresh, None, NOW);
            assert!(s.price_table.is_some());
        }
        other => panic!("{other:?}"),
    }
}

#[test]
fn icons_have_files() {
    let cfg = config();
    let chip = render_initial(&cfg);
    assert_eq!(chip.tip, "Coding Plan");
    let (path, file) = icon_file("/tmp", chip.icon, &cfg.ring_colors);
    assert!(path.starts_with("/tmp/llm-quota-normal-"));
    assert!(file.is_none());
    let ring = ChipIcon::Ring { pct: 5, bucket: Bucket::Warning };
    let (path, file) = icon_file("/tmp", ring, &cfg.ring_colors);
    assert!(path.starts_with("/tmp/llm-quota-ring-5-"));
    assert_eq!(file.unwrap().path, path);
    assert_eq!(offline_chip(&cfg).icon, ChipIcon::Static(StaticIcon::Offline));
}

#[test]
fn events_change_the_state_and_ask_for_actions() {
    let mut s = starting_state(None);
    s.fail_streak = 2;
    assert_eq!(on_event(&mut s, LoopEvent::Tick), LoopAction::Poll);
    assert_eq!(s.fail_streak, 2);
    let down = LoopEvent::Net(Some(NetEvent::Connectivity(false)));
    assert_eq!(on_event(&mut s, down), LoopAction::ShowOffline);
    assert!(s.offline);
    let up = LoopEvent::Net(Some(NetEvent::Connectivity(true)));
    assert_eq!(on_event(&mut s, up), LoopAction::Wait);
    assert!(!s.offline);
    assert_eq!(s.fail_streak, 2);
    let force = LoopEvent::Net(Some(NetEvent::ForceRefresh));
    assert_eq!(on_event(&mut s, force), LoopAction::Poll);
    assert_eq!(s.fail_streak, 0);
    let lock = LoopEvent::Lock(Some(LockEvent::ScreenLock(true)));
    assert_eq!(on_event(&mut s, lock), LoopAction::Wait);
    assert!(s.screen_locked);
    let refresh = LoopEvent::Command(Some(MenuCommand::Refresh));
    assert_eq!(on_event(&mut s, refresh), LoopAction::Poll);
    assert!(s.screen_locked);
    let open = LoopEvent::Command(Some(MenuCommand::OpenDashboard));
    assert_eq!(on_event(&mut s, open), LoopAction::OpenDashboard);
    let ask = LoopEvent::Command(Some(MenuCommand::SetApiKey));
    assert_eq!(on_event(&mut s, ask), LoopAction::AskForKey);
    s.fail_streak = 5;
    assert_eq!(on_event(&mut s, LoopEvent::Key(KeyEntry::Cancelled)), LoopAction::Wait);
    assert_eq!(s.fail_streak, 5);
    assert_eq!(on_event(&mut s, LoopEvent::Key(KeyEntry::Stored)), LoopAction::Poll);
    assert_eq!(s.fail_streak, 0);
    let quit = LoopEvent::Command(Some(MenuCommand::Quit));
    assert_eq!(on_event(&mut s, quit), LoopAction::Quit);
    assert_eq!(on_event(&mut s, LoopEvent::Command(None)), LoopAction::Stop);
    assert_eq!(on_event(&mut s, LoopEvent::Net(None)), LoopAction::Wait);
    assert_eq!(on_event(&mut s, LoopEvent::Lock(None)), LoopAction::Wait);
}

#[test]
fn schedule_waits_for_the_rest_of_the_interval() {
    assert_eq!(Schedule::new().sleep_ms(NOW), 1);
    let s = Schedule::polled(60_000, 600, 500, NOW);
    assert_eq!(s.sleep_ms(NOW), 60_500);
    assert_eq!(s.sleep_ms(NOW + 60_000), 500);
    assert_eq!(s.sleep_ms(NOW + 90_000), 1);
}

#[test]
fn dialogs_are_tried_in_order() {
    let printed = |t: &str| DialogResult::Printed(t.as_bytes().to_vec());
    match after_dialog(Dialog::Kdialog, DialogResult::Printed(vec![b'k', 0xff, b'\n'])) {
        AfterDialog::Store(key) => assert_eq!(key, "k\u{fffd}"),
        other => panic!("{other:?}"),
    }
    match after_dialog(Dialog::Zenity, printed(" sk-1\n")) {
        AfterDialog::Store(key) => assert_eq!(key, "sk-1"),
        other => panic!("{other:?}"),
    }
    assert!(matches!(
        after_dialog(Dialog::Zenity, DialogResult::Cancelled),
        AfterDialog::Cancelled
    ));
    assert!(matches!(
        after_dialog(Dialog::Zenity, DialogResult::Missing),
        AfterDialog::Try(Dialog::Kdialog)
    ));
    assert!(matches!(
        after_dialog(Dialog::Kdialog, DialogResult::Missing),
        AfterDialog::NoDialog
    ));
}

#[test]
fn dialogs_name_the_keyring_entry() {
    assert_eq!(Dialog::Zenity.program(), "zenity");
    assert_eq!(
        Dialog::Zenity.args("llm-quota-tray"),
        vec![
            "--entry",
            "--title=llm-quota-tray API Key",
            "--text=Enter your API key (stored in your OS keyring as `application llm-quota-tray`):",
            "--hide-text",
        ]
    );
    assert_eq!(
        Dialog::Kdialog.args("llm-quota-tray"),
        vec![
            "--password",
            "Enter your API key (stored in your OS keyring as `application llm-quota-tray`) — llm-quota-tray API Key:",
        ]
    );
    assert_eq!(
        no_dialog_message("llm-quota-tray"),
        "no GUI prompt tool available (tried zenity, kdialog). From a terminal: `secret-tool store --label='llm-quota-tray API Key' application llm-quota-tray`"
    );
}

#[test]
fn a_rank_is_notified_once() {
    let cfg = config();
    let mut s = starting_state(None);
    let mut sent = Vec::new();
    for pct in [90, 0, 0] {
        let f = fresh(on_fetched(&cfg, &mut s, Ok(vec![window("a", pct)]), NOW));
        let o = show(&cfg, &mut s, &f, None, NOW);
        sent.push(o.notification.map(|n| n.tag));
    }
    assert_eq!(sent, vec![None, Some("throttled"), None]);
}

#[test]
fn a_success_ends_the_backoff() {
    let cfg = config();
    let mut s = starting_state(None);
    let first = finished(on_fetched(&cfg, &mut s, Err("down".to_string()), NOW));
    let second = finished(on_fetched(&cfg, &mut s, Err("down".to_string()), NOW));
    assert!(second.interval_ms > first.interval_ms);
    fresh(on_fetched(&cfg, &mut s, Ok(vec![window("a", 90)]), NOW));
    let again = finished(on_fetched(&cfg, &mut s, Err("down".to_string()), NOW));
    assert_eq!(again.interval_ms, first.interval_ms);
}
