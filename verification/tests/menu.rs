use quota_tray::menu::{
    bar_id, build_child_variants, build_layout_response, burn_id, window_id, ItemLayout,
    MenuCommand, MenuInner, PropValue, DASHBOARD_ID, ERROR_ID, HEADER_ID, QUIT_ID, REFRESH_ID,
    ROOT_ID, SEP_1_ID, SEP_2_ID, SEP_3_ID, SET_KEY_ID, THROTTLED_ID,
};

fn prop<'a>(layout: &'a ItemLayout, name: &str) -> Option<&'a PropValue> {
    layout.props.iter().find(|p| p.0 == name).map(|p| &p.1)
}

fn items_in_order(state: &MenuInner) -> Vec<i32> {
    state.children(ROOT_ID).to_vec()
}

#[test]
fn default_has_static_layout() {
    let s = MenuInner::new();
    let kids = items_in_order(&s);
    assert_eq!(kids.first(), Some(&HEADER_ID));
    assert!(kids.contains(&REFRESH_ID));
    assert!(kids.contains(&QUIT_ID));
    assert!(kids.contains(&SEP_1_ID));
    assert!(kids.contains(&SEP_3_ID));
    let t = s.item(THROTTLED_ID).unwrap();
    let e = s.item(ERROR_ID).unwrap();
    assert!(!t.visible);
    assert!(!e.visible);
}

#[test]
fn revision_bumps_on_change() {
    let mut s = MenuInner::new();
    let r0 = s.revision();
    s.set_header("Plan: Coding Plan");
    assert!(s.revision() > r0);
    let r1 = s.revision();
    s.set_header("Plan: Coding Plan");
    assert_eq!(s.revision(), r1);
    s.set_header("Plan: Token Plan");
    assert!(s.revision() > r1);
}

#[test]
fn window_rows_appear_in_order() {
    let mut s = MenuInner::new();
    s.rebuild_window_rows(
        &["  5h: 80% left".into(), "  weekly: 100% left".into()],
        &["  [bar5h]".into(), "  [barweekly]".into()],
        &[Some("  burn 5h".into()), None],
    );
    let kids = items_in_order(&s);
    let lid0 = window_id(0);
    let bid0 = bar_id(0);
    let bid2 = burn_id(0);
    let lid1 = window_id(1);
    let bid1 = bar_id(1);
    let pos = |id: i32| kids.iter().position(|&x| x == id).unwrap();
    assert!(pos(lid0) < pos(bid0));
    assert!(pos(bid0) < pos(bid2));
    assert!(pos(bid2) < pos(lid1));
    assert!(pos(lid1) < pos(bid1));
    assert!(kids.contains(&burn_id(1)));
    assert!(pos(bid1) < pos(THROTTLED_ID));
    assert!(pos(THROTTLED_ID) < pos(SEP_1_ID));
}

#[test]
fn window_rows_hide_when_count_drops() {
    let mut s = MenuInner::new();
    s.rebuild_window_rows(
        &["a".into(), "b".into()],
        &["a".into(), "b".into()],
        &[None, None],
    );
    assert!(s.item(window_id(0)).unwrap().visible);
    assert!(s.item(window_id(1)).unwrap().visible);

    s.rebuild_window_rows(&["only".into()], &["bar".into()], &[None]);
    assert!(s.item(window_id(0)).unwrap().visible);
    assert!(!s.item(window_id(1)).unwrap().visible);
}

#[test]
fn burn_row_toggles_visibility() {
    let mut s = MenuInner::new();
    s.rebuild_window_rows(&["row".into()], &["bar".into()], &[None]);
    assert!(!s.item(burn_id(0)).unwrap().visible);

    s.rebuild_window_rows(
        &["row".into()],
        &["bar".into()],
        &[Some("  · burn row".into())],
    );
    assert!(s.item(burn_id(0)).unwrap().visible);
    assert_eq!(s.item(burn_id(0)).unwrap().label, "  · burn row");

    s.rebuild_window_rows(&["row".into()], &["bar".into()], &[None]);
    assert!(!s.item(burn_id(0)).unwrap().visible);
}

#[test]
fn throttled_toggles() {
    let mut s = MenuInner::new();
    assert!(!s.item(THROTTLED_ID).unwrap().visible);
    s.set_throttled("  ⚠ Throttled", true);
    assert!(s.item(THROTTLED_ID).unwrap().visible);
    assert_eq!(s.item(THROTTLED_ID).unwrap().label, "  ⚠ Throttled");
    let r = s.revision();
    s.set_throttled("  ⚠ Throttled", true);
    assert_eq!(s.revision(), r);
    s.set_throttled("", false);
    assert!(!s.item(THROTTLED_ID).unwrap().visible);
}

#[test]
fn error_toggles() {
    let mut s = MenuInner::new();
    s.set_error("  ⚠ Error: x", true);
    assert!(s.item(ERROR_ID).unwrap().visible);
    assert!(s.item(ERROR_ID).unwrap().label.contains("Error: x"));
    s.set_error("", false);
    assert!(!s.item(ERROR_ID).unwrap().visible);
}

#[test]
fn action_items_have_commands() {
    let s = MenuInner::new();
    assert_eq!(
        s.item(REFRESH_ID).unwrap().action,
        Some(MenuCommand::Refresh)
    );
    assert_eq!(
        s.item(DASHBOARD_ID).unwrap().action,
        Some(MenuCommand::OpenDashboard)
    );
    assert_eq!(
        s.item(SET_KEY_ID).unwrap().action,
        Some(MenuCommand::SetApiKey)
    );
    assert_eq!(s.item(QUIT_ID).unwrap().action, Some(MenuCommand::Quit));
}

#[test]
fn separators_have_no_label() {
    let s = MenuInner::new();
    for sid in [SEP_1_ID, SEP_2_ID, SEP_3_ID] {
        let it = s.item(sid).unwrap();
        assert!(it.separator);
        assert_eq!(it.label, "");
        assert!(it.action.is_none());
    }
}

#[test]
fn window_id_helpers() {
    assert_eq!(window_id(0), 100);
    assert_eq!(bar_id(0), 101);
    assert_eq!(burn_id(0), 102);
    assert_eq!(window_id(1), 103);
    assert_eq!(bar_id(1), 104);
    assert_eq!(burn_id(1), 105);
}

#[test]
fn build_layout_returns_props() {
    let s = MenuInner::new();
    let (rev, layout) = build_layout_response(&s, REFRESH_ID, false);
    assert!(rev > 0);
    assert_eq!(layout.id, REFRESH_ID);
    assert!(prop(&layout, "type").is_some());
    assert_eq!(prop(&layout, "label"), Some(&PropValue::Text("Refresh now".to_string())));
}

#[test]
fn separator_layout() {
    let s = MenuInner::new();
    let (_rev, layout) = build_layout_response(&s, SEP_1_ID, false);
    assert_eq!(layout.id, SEP_1_ID);
    assert_eq!(prop(&layout, "type"), Some(&PropValue::Text("separator".to_string())));
}

#[test]
fn child_variants_recursive() {
    let mut s = MenuInner::new();
    s.rebuild_window_rows(&["row".into()], &["bar".into()], &[None]);
    let kids = build_child_variants(&s, ROOT_ID, true);
    assert_eq!(kids.len(), 13);
    for v in &kids {
        assert!(v.children.is_empty());
    }
}

fn rows(n: usize) -> (Vec<String>, Vec<String>, Vec<Option<String>>) {
    let labels = (0..n).map(|i| format!("row {i}")).collect();
    let bars = (0..n).map(|i| format!("bar {i}")).collect();
    (labels, bars, vec![None; n])
}

#[test]
fn window_ids_past_the_reserved_range_stay_distinct() {
    let mut s = MenuInner::new();
    let (labels, bars, burns) = rows(80);
    s.rebuild_window_rows(&labels, &bars, &burns);
    let kids = items_in_order(&s);
    let mut sorted = kids.clone();
    sorted.sort();
    sorted.dedup();
    assert_eq!(kids.len(), 10 + 3 * 80);
    assert_eq!(sorted.len(), kids.len());
    assert_eq!(s.item(window_id(79)).unwrap().label, "row 79");
    assert_eq!(s.item(QUIT_ID).unwrap().label, "Quit");
    assert!(s.item(QUIT_ID).unwrap().visible);
    assert!(!s.item(THROTTLED_ID).unwrap().visible);
    assert_eq!(window_id(32), 196);
    assert_eq!(window_id(33), 307);
    assert_eq!(burn_id(33), 309);
    assert_eq!(bar_id(34), 311);
}

#[test]
fn the_revision_tells_whether_a_rebuild_changed_anything() {
    let mut s = MenuInner::new();
    let (mut labels, bars, burns) = rows(2);
    s.rebuild_window_rows(&labels, &bars, &burns);
    let r = s.revision();
    assert!(r > 1);
    s.rebuild_window_rows(&labels, &bars, &burns);
    assert_eq!(s.revision(), r);
    labels[1] = "other".to_string();
    s.rebuild_window_rows(&labels, &bars, &burns);
    assert_eq!(s.revision(), r + 1);
    s.rebuild_window_rows(&labels[..1], &bars[..1], &burns[..1]);
    assert_eq!(s.revision(), r + 2);
}

#[test]
fn rebuilding_twice_changes_nothing() {
    let mut s = MenuInner::new();
    let (labels, bars, burns) = rows(3);
    s.rebuild_window_rows(&labels, &bars, &burns);
    let r = s.revision();
    s.rebuild_window_rows(&labels, &bars, &burns);
    assert_eq!(s.revision(), r);
}

#[test]
fn installing_moves_the_revision_only_on_change() {
    let mut live = MenuInner::new();
    let mut fresh = MenuInner::new();
    let (labels, bars, burns) = rows(2);
    fresh.rebuild_window_rows(&labels, &bars, &burns);
    live.install(fresh);
    let r = live.revision();
    assert!(r > 1);
    assert_eq!(items_in_order(&live).len(), 16);

    let mut same = MenuInner::new();
    same.rebuild_window_rows(&labels, &bars, &burns);
    live.install(same);
    assert_eq!(live.revision(), r);

    live.install(MenuInner::new());
    assert_eq!(live.revision(), r + 1);
    assert_eq!(items_in_order(&live).len(), 16);
    assert!(!live.item(window_id(0)).unwrap().visible);
}

#[test]
fn unknown_items_read_as_empty_rows() {
    let s = MenuInner::new();
    let (_, layout) = build_layout_response(&s, 9999, true);
    assert_eq!(layout.id, 9999);
    assert_eq!(prop(&layout, "label"), Some(&PropValue::Text(String::new())));
    assert!(layout.children.is_empty());
    assert!(s.item(9999).is_none());
}
