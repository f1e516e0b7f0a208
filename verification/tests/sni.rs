use quota_tray::menu::{
    build_layout_response, MenuCommand, MenuInner, PropValue, DASHBOARD_ID, ERROR_ID, HEADER_ID,
    QUIT_ID, REFRESH_ID, ROOT_ID, SEP_1_ID, SET_KEY_ID,
};
use quota_tray::render::MenuChange;
use quota_tray::sni::{
    bus_name, event, event_group, get_group_properties, get_layout, get_property, Pixels,
    SharedState, Signal, MENU_PATH, SNI_PATH, WATCHER_NAME, WATCHER_PATH,
};

#[test]
fn paths_are_well_known() {
    assert_eq!(SNI_PATH, "/StatusNotifierItem");
    assert_eq!(MENU_PATH, "/Menu");
    assert_eq!(WATCHER_PATH, "/StatusNotifierWatcher");
    assert_eq!(WATCHER_NAME, "org.kde.StatusNotifierWatcher");
}

#[test]
fn menu_command_names_match() {
    let s = MenuInner::new();
    assert_eq!(
        s.item(REFRESH_ID).unwrap().action,
        Some(MenuCommand::Refresh)
    );
    assert_eq!(
        s.item(DASHBOARD_ID).unwrap().action,
        Some(MenuCommand::OpenDashboard)
    );
    assert_eq!(
        s.item(SET_KEY_ID).unwrap().action,
        Some(MenuCommand::SetApiKey)
    );
    assert_eq!(s.item(QUIT_ID).unwrap().action, Some(MenuCommand::Quit));
}

#[test]
fn get_layout_response_for_empty_menu() {
    let menu = MenuInner::new();
    let (revision, layout) = build_layout_response(&menu, ROOT_ID, true);
    assert_eq!(revision, 1, "new MenuInner must start at revision 1");
    assert_eq!(layout.id, ROOT_ID, "root item id must be ROOT_ID (0)");
    for required_key in ["type", "label", "enabled", "visible", "children-display"] {
        assert!(
            layout.props.iter().any(|p| p.0 == required_key),
            "missing required dbusmenu property {required_key:?}"
        );
    }
    assert_eq!(
        layout.children.len(),
        10,
        "default menu must have 10 root children (1 header + 1 throttled + 1 error + 3 separators + 4 actions)"
    );
}

#[test]
fn shared_state_initial() {
    let s = SharedState::new("https://example.invalid/dashboard".to_string());
    assert_eq!(s.dashboard_url(), "https://example.invalid/dashboard");
    assert_eq!(s.tool_tip_desc, "");
    assert_eq!(s.title, "");
    assert_eq!(s.icon_name, "dialog-information-symbolic");
    assert_eq!(s.status, "Passive");
    assert!(s.icon_pixmap().is_empty());
}

#[test]
fn tool_tip_signature_matches_sni_spec() {
    fn _signature_check(_x: (String, (String, String), bool)) {}
    let mut s = SharedState::new(String::new());
    s.update("", "icon", "Active", None, "Plan — 80% remaining");
    let tip = s.tool_tip();
    assert_eq!((tip.1).1, "Plan — 80% remaining");
    _signature_check(tip);
}

#[test]
fn update_keeps_old_pixels() {
    let mut s = SharedState::new(String::new());
    let pixels = Pixels {
        width: 1,
        height: 1,
        bytes: vec![1, 2, 3, 4],
    };
    let signals = s.update("t", "i", "Active", Some(pixels), "d");
    assert_eq!(
        signals,
        vec![Signal::NewIcon, Signal::NewTitle, Signal::NewStatus]
    );
    assert_eq!(s.icon_pixmap(), vec![(1, 1, vec![1, 2, 3, 4])]);
    s.update("", "j", "Active", None, "e");
    assert_eq!(s.icon_pixmap().len(), 1);
    assert_eq!(s.icon_name, "j");
}

#[test]
fn menu_signals_follow_the_revision() {
    let mut s = SharedState::new(String::new());
    let first = s.apply_menu(MenuChange::Offline);
    let r = s.menu_revision;
    assert_eq!(
        first,
        vec![Signal::ItemsUpdated(r), Signal::LayoutUpdated(r, ROOT_ID)]
    );
    assert!(s.menu_state.item(ERROR_ID).unwrap().visible);
    assert_eq!(s.apply_menu(MenuChange::Offline), vec![]);
    assert_eq!(s.apply_menu(MenuChange::Keep), vec![]);
    let install = s.apply_menu(MenuChange::Install(MenuInner::new()));
    assert_eq!(install.len(), 2);
    assert!(!s.menu_state.item(ERROR_ID).unwrap().visible);
}

#[test]
fn a_new_panel_is_told_everything() {
    let s = SharedState::new(String::new());
    assert_eq!(s.recovery_signals(false), vec![]);
    assert_eq!(s.recovery_signals(true).len(), 5);
}

#[test]
fn depth_zero_asks_for_the_item_alone() {
    let menu = MenuInner::new();
    assert_eq!(get_layout(&menu, ROOT_ID, 0).1.children.len(), 0);
    assert_eq!(get_layout(&menu, ROOT_ID, 1).1.children.len(), 10);
    assert_eq!(get_layout(&menu, ROOT_ID, -1).1.children.len(), 10);
}

#[test]
fn group_properties_skip_unknown_items() {
    let menu = MenuInner::new();
    let r = get_group_properties(&menu, &vec![SEP_1_ID, 4711, HEADER_ID]);
    assert_eq!(r.len(), 2);
    assert_eq!(r[0].0, SEP_1_ID);
    assert_eq!(r[1].0, HEADER_ID);
    assert_eq!(r[1].1[1], ("label", PropValue::Text("Plan: …".to_string())));
}

#[test]
fn properties_are_found_by_name() {
    let menu = MenuInner::new();
    assert_eq!(
        get_property(&menu, REFRESH_ID, "label"),
        PropValue::Text("Refresh now".to_string())
    );
    assert_eq!(get_property(&menu, REFRESH_ID, "enabled"), PropValue::Flag(true));
    assert_eq!(
        get_property(&menu, REFRESH_ID, "nonsense"),
        PropValue::Text(String::new())
    );
    assert_eq!(
        get_property(&menu, 4711, "label"),
        PropValue::Text(String::new())
    );
}

#[test]
fn only_clicks_on_actions_ask_for_anything() {
    let menu = MenuInner::new();
    assert_eq!(event(&menu, QUIT_ID, "clicked"), Some(MenuCommand::Quit));
    assert_eq!(event(&menu, QUIT_ID, "hovered"), None);
    assert_eq!(event(&menu, HEADER_ID, "clicked"), None);
    assert_eq!(event(&menu, 4711, "clicked"), None);
    let events = vec![
        (REFRESH_ID, "clicked".to_string()),
        (HEADER_ID, "clicked".to_string()),
        (QUIT_ID, "clicked".to_string()),
    ];
    assert_eq!(
        event_group(&menu, &events),
        vec![MenuCommand::Refresh, MenuCommand::Quit]
    );
}

#[test]
fn bus_names_carry_the_process() {
    assert_eq!(bus_name(42), "org.kde.StatusNotifierItem-42-1");
}

#[test]
fn the_dashboard_link_can_change() {
    let mut s = SharedState::new("https://a.example".to_string());
    assert_eq!(s.dashboard_url(), "https://a.example");
    s.set_dashboard_url("https://b.example".to_string());
    assert_eq!(s.dashboard_url(), "https://b.example");
}
