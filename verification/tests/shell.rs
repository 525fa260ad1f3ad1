use bms_store_gui::shell::{
    gate_screen, is_stale, layout, on_write_result, point_resource_id, write_actor, write_target, GateScreen,
};

#[test]
fn project_gate_screens() {
    assert_eq!(gate_screen(true, Some(false), true, true), GateScreen::LoadError);
    assert_eq!(gate_screen(false, None, false, false), GateScreen::Loading);
    assert_eq!(gate_screen(false, Some(true), false, false), GateScreen::AdminSetup);
    assert_eq!(gate_screen(false, Some(false), false, true), GateScreen::Login);
    assert_eq!(gate_screen(false, Some(true), true, false), GateScreen::Initializing);
    assert_eq!(gate_screen(false, Some(false), true, true), GateScreen::App);
}

#[test]
fn main_window_layout() {
    let l = layout(true, true, true);
    assert!(l.config && !l.sidebar && !l.main && !l.details);
    let l = layout(false, true, false);
    assert!(!l.config && l.sidebar && l.main && !l.details);
    let l = layout(false, false, true);
    assert!(!l.sidebar && l.main && l.details);
}

#[test]
fn logic_writes_are_addressed_by_node_id() {
    assert_eq!(write_target("bacnet-100/ai-1"), Some(("bacnet-100".to_string(), "ai-1".to_string())));
    assert_eq!(write_target("dev/a/b"), Some(("dev".to_string(), "a/b".to_string())));
    assert_eq!(write_target("no-slash"), None);
}

#[test]
fn points_go_stale_after_five_minutes() {
    assert!(!is_stale(299, 999_999_999));
    assert!(!is_stale(300, 0));
    assert!(is_stale(300, 1));
    assert!(is_stale(301, 0));
}

#[test]
fn write_results() {
    let ok = on_write_result(Ok(()));
    assert_eq!(ok.write_error, None);
    assert_eq!(ok.audit_failure, None);
    assert!(ok.update_store);
    let failed = on_write_result(Err("timeout".to_string()));
    assert_eq!(failed.write_error.as_deref(), Some("Write failed: timeout"));
    assert_eq!(failed.audit_failure.as_deref(), Some("Write failed: timeout"));
    assert!(!failed.update_store);
    assert_eq!(point_resource_id("dev-1", "pt-2"), "dev-1/pt-2");
    assert_eq!(write_actor(&None), ("system".to_string(), "system".to_string()));
    assert_eq!(
        write_actor(&Some(("u1".to_string(), "alice".to_string()))),
        ("u1".to_string(), "alice".to_string())
    );
}

use bms_store_gui::shell::{point_key, reading_string, sort_rows_by_name, Reading, SummaryRow};

fn row(id: &str, name: &str) -> SummaryRow {
    SummaryRow { point_id: id.to_string(), name: name.to_string(), value: String::new() }
}

#[test]
fn summary_point_keys() {
    assert_eq!(point_key("bacnet-1/ai-3", "bacnet-1"), "ai-3");
    assert_eq!(point_key("bacnet-10/ai-3", "bacnet-1"), "bacnet-10/ai-3");
    assert_eq!(point_key("ai-3", "bacnet-1"), "ai-3");
}

#[test]
fn summary_readings() {
    assert_eq!(reading_string(&Some(Reading::Bool(true)), &None), "ON");
    assert_eq!(reading_string(&Some(Reading::Bool(false)), &Some("state".to_string())), "OFF state");
    assert_eq!(reading_string(&Some(Reading::Integer(-4)), &Some("rpm".to_string())), "-4 rpm");
    assert_eq!(reading_string(&Some(Reading::Decimal("72.5".to_string())), &Some("°F".to_string())), "72.5 °F");
    assert_eq!(reading_string(&None, &Some("°F".to_string())), "—");
}

#[test]
fn summary_rows_sort_by_name_keeping_ties_in_order() {
    let rows = vec![row("3", "Zone Temp"), row("1", "Fan"), row("2", "Zone Temp"), row("4", "Damper")];
    let ids: Vec<String> = sort_rows_by_name(&rows).into_iter().map(|r| r.point_id).collect();
    assert_eq!(ids, vec!["4", "1", "3", "2"]);
}
