use quota_tray::lock::{lock_contents, lock_outcome, may_start, LockOutcome};
use quota_tray::network::{self, NetEvent};
use quota_tray::notify::{
    direct_notification, next_route, portal_fields, Notification, Route, Urgency,
};
use quota_tray::portal_openuri::{
    build_open_uri_options, choose_opener, Opener, PORTAL_BUS, PORTAL_IFACE, PORTAL_PATH,
};
use quota_tray::screenlock::{self, LockEvent};

#[test]
fn urgency_byte_mapping_matches_libnotify() {
    assert_eq!(Urgency::Low.to_byte(), 0);
    assert_eq!(Urgency::Normal.to_byte(), 1);
    assert_eq!(Urgency::Critical.to_byte(), 2);
}

#[test]
fn urgency_eq_and_copy() {
    let u = Urgency::Normal;
    let v = u;
    assert_eq!(u, v);
}

#[test]
fn urgency_send_is_send() {
    fn assert_send<T: Send + Sync>() {}
    assert_send::<Urgency>();
}

#[test]
fn urgency_priority_mapping_for_portal() {
    assert_eq!(Urgency::Low.to_priority(), "low");
    assert_eq!(Urgency::Normal.to_priority(), "normal");
    assert_eq!(Urgency::Critical.to_priority(), "urgent");
}

#[test]
fn urgency_priority_and_byte_are_consistent() {
    assert_ne!(Urgency::Normal.to_priority(), Urgency::Critical.to_priority());
    assert_ne!(Urgency::Normal.to_byte(), Urgency::Critical.to_byte());
}

#[test]
fn urgency_priority_strings_are_lowercase() {
    for u in [Urgency::Low, Urgency::Normal, Urgency::Critical] {
        let p = u.to_priority();
        assert!(
            p.chars().all(|c| !c.is_uppercase()),
            "portal priority must be lowercase, got {p:?}"
        );
        assert!(!p.is_empty(), "portal priority must be non-empty");
    }
}

#[test]
fn urgency_debug_format_is_stable() {
    assert_eq!(format!("{:?}", Urgency::Low), "Low");
    assert_eq!(format!("{:?}", Urgency::Normal), "Normal");
    assert_eq!(format!("{:?}", Urgency::Critical), "Critical");
}

fn note() -> Notification {
    Notification {
        tag: "warning",
        title: "Plan — running low".to_string(),
        body: "Usage reached 40%.".to_string(),
        urgency: Urgency::Normal,
    }
}

#[test]
fn portal_gets_title_body_priority_and_token() {
    let plain = portal_fields(&note(), None);
    assert_eq!(
        plain,
        vec![
            ("title", "Plan — running low".to_string()),
            ("body", "Usage reached 40%.".to_string()),
            ("priority", "normal".to_string()),
        ]
    );
    let with_token = portal_fields(&note(), Some("tok"));
    assert_eq!(with_token.len(), 4);
    assert_eq!(with_token[3], ("activation_token", "tok".to_string()));
}

#[test]
fn server_gets_hints_and_no_timeout() {
    let d = direct_notification(&note());
    assert_eq!(d.app_name, "llm-quota-tray.desktop");
    assert_eq!(d.replaces_id, 0);
    assert_eq!(d.icon, "");
    assert_eq!(d.summary, "Plan — running low");
    assert_eq!(d.urgency, 1);
    assert_eq!(d.synchronous, "warning");
    assert_eq!(d.expire_timeout, -1);
}

#[test]
fn portal_comes_before_the_server() {
    assert_eq!(next_route(Route::Portal), Route::Direct);
    assert_eq!(next_route(Route::Direct), Route::GivenUp);
    assert_eq!(next_route(Route::GivenUp), Route::GivenUp);
}

#[test]
fn net_event_eq() {
    assert_eq!(NetEvent::Connectivity(true), NetEvent::Connectivity(true));
    assert_ne!(NetEvent::Connectivity(true), NetEvent::Connectivity(false));
    assert_eq!(NetEvent::ForceRefresh, NetEvent::ForceRefresh);
}

#[test]
fn network_changes_become_events() {
    assert_eq!(network::initial_state(None), 70);
    assert_eq!(network::initial_state(Some(20)), 20);
    assert_eq!(network::on_startup(70), vec![]);
    assert_eq!(network::on_startup(20), vec![NetEvent::Connectivity(false)]);
    assert_eq!(network::on_state_changed(70, 70), vec![]);
    assert_eq!(network::on_state_changed(70, 20), vec![NetEvent::Connectivity(false)]);
    assert_eq!(
        network::on_state_changed(20, 70),
        vec![NetEvent::Connectivity(true), NetEvent::ForceRefresh]
    );
}

#[test]
fn lock_event_eq() {
    assert_eq!(LockEvent::ScreenLock(true), LockEvent::ScreenLock(true));
    assert_ne!(LockEvent::ScreenLock(true), LockEvent::ScreenLock(false));
    assert_eq!(LockEvent::ForceRefresh, LockEvent::ForceRefresh);
}

#[test]
fn lock_event_variants_are_distinct() {
    assert_ne!(LockEvent::ScreenLock(true), LockEvent::ForceRefresh);
    assert_ne!(LockEvent::ScreenLock(false), LockEvent::ForceRefresh);
    assert_ne!(LockEvent::ScreenLock(true), LockEvent::ScreenLock(false));
}

#[test]
fn lock_event_clone_preserves_variant() {
    let a = LockEvent::ScreenLock(true);
    let b = a.clone();
    assert_eq!(a, b);

    let c = LockEvent::ForceRefresh;
    let d = c.clone();
    assert_eq!(c, d);
}

#[test]
fn lock_event_debug_is_human_readable() {
    assert_eq!(format!("{:?}", LockEvent::ScreenLock(true)), "ScreenLock(true)");
    assert_eq!(format!("{:?}", LockEvent::ScreenLock(false)), "ScreenLock(false)");
    assert_eq!(format!("{:?}", LockEvent::ForceRefresh), "ForceRefresh");
}

#[test]
fn lock_event_is_send_and_sync() {
    fn assert_send_sync<T: Send + Sync>() {}
    assert_send_sync::<LockEvent>();
}

#[test]
fn lock_changes_become_events() {
    assert!(!screenlock::initial_state(None));
    assert!(screenlock::initial_state(Some(true)));
    assert_eq!(screenlock::on_startup(false), vec![]);
    assert_eq!(screenlock::on_startup(true), vec![LockEvent::ScreenLock(true)]);
    assert_eq!(screenlock::on_active_changed(true, true), vec![]);
    assert_eq!(
        screenlock::on_active_changed(false, true),
        vec![LockEvent::ScreenLock(true)]
    );
    assert_eq!(
        screenlock::on_active_changed(true, false),
        vec![LockEvent::ScreenLock(false), LockEvent::ForceRefresh]
    );
}

#[test]
fn portal_constants_match_spec() {
    assert_eq!(PORTAL_BUS, "org.freedesktop.portal.Desktop");
    assert_eq!(PORTAL_PATH, "/org/freedesktop/portal/desktop");
    assert_eq!(PORTAL_IFACE, "org.freedesktop.portal.OpenURI");
}

#[test]
fn open_uri_call_signature_matches_spec() {
    let _ = std::marker::PhantomData::<fn(&str, &str) -> ()>;
}

#[test]
fn build_options_empty_when_no_activation_token() {
    let opts = build_open_uri_options(None);
    assert!(opts.is_empty());
}

#[test]
fn build_options_inserts_activation_token_when_present() {
    let opts = build_open_uri_options(Some("launch-xyz"));
    assert_eq!(opts.len(), 1, "exactly one key when token is set");
    assert_eq!(opts[0], ("activation_token", "launch-xyz".to_string()));
}

#[test]
fn build_options_distinguishes_empty_string_from_none() {
    let opts = build_open_uri_options(Some(""));
    assert_eq!(
        opts.len(),
        1,
        "empty Some is still Some -- helper preserves caller intent"
    );
    assert_eq!(opts[0], ("activation_token", "".to_string()));
}

#[test]
fn build_options_token_with_special_chars_preserved() {
    let opts = build_open_uri_options(Some("aA0-_~.=+/"));
    assert_eq!(opts[0].1, "aA0-_~.=+/");
}

#[test]
fn links_go_to_the_portal_first() {
    assert_eq!(choose_opener("", false), Opener::Nothing);
    assert_eq!(choose_opener("https://a", false), Opener::Portal);
    assert_eq!(choose_opener("https://a", true), Opener::Command);
}

#[test]
fn lock_outcomes_are_told_apart() {
    assert_eq!(lock_outcome(0, 0, 11), LockOutcome::Acquired);
    assert_eq!(lock_outcome(-1, 11, 11), LockOutcome::Held);
    assert_eq!(lock_outcome(-1, 9, 11), LockOutcome::Failed(9));
    assert_eq!(lock_contents(4321), "4321");
    assert!(may_start(None));
    assert!(may_start(Some(LockOutcome::Failed(9))));
    assert!(!may_start(Some(LockOutcome::Held)));
}
