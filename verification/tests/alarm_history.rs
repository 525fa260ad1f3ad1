use bms_store_gui::alarm_model::AlarmSeverity;
use bms_store_gui::components::alarm_view::{
    apply_filters, cleared_filters, count_query, history_count_text, HistoryDraft,
};

fn draft(limit: &str) -> HistoryDraft {
    HistoryDraft {
        severity: Some(AlarmSeverity::Critical),
        search: "ahu".to_string(),
        device: "dev-1".to_string(),
        point: String::new(),
        transition: "raised".to_string(),
        start: String::new(),
        end: String::new(),
        limit: limit.to_string(),
    }
}

#[test]
fn applying_filters_reads_the_page_size() {
    let f = apply_filters(&draft("500"));
    assert_eq!(f.limit, 500);
    assert_eq!(f.search, "ahu");
    assert_eq!(f.device, "dev-1");
    assert!(matches!(f.severity, Some(AlarmSeverity::Critical)));
    assert_eq!(apply_filters(&draft("lots")).limit, 200);
}

#[test]
fn clearing_filters_resets_to_pages_of_200() {
    let f = cleared_filters();
    assert_eq!(f.limit, 200);
    assert!(f.severity.is_none());
    assert!(f.search.is_empty() && f.transition.is_empty());
}

#[test]
fn the_count_query_has_no_page_size() {
    let q = apply_filters(&draft("100")).to_query(Some(1000), None);
    assert_eq!(q.limit, Some(100));
    let c = count_query(&q);
    assert_eq!(c.limit, None);
    assert_eq!(c.device_id.as_deref(), Some("dev-1"));
    assert_eq!(c.from_state.as_deref(), Some("normal"));
    assert_eq!(c.to_state.as_deref(), Some("offnormal"));
    assert_eq!(c.start_ms, Some(1000));
}

#[test]
fn result_count_line() {
    assert_eq!(history_count_text(200, 1234, false).as_deref(), Some("Showing 200 of 1234 events"));
    assert_eq!(history_count_text(0, 0, false).as_deref(), Some("No matching events"));
    assert_eq!(history_count_text(0, 0, true), None);
}

use bms_store_gui::components::alarm_view::alarm_time_label;

#[test]
fn alarm_times() {
    assert_eq!(alarm_time_label(true, 2, 14, 9, 5, 7), "09:05:07");
    assert_eq!(alarm_time_label(false, 2, 14, 9, 5, 7), "Mar 14 09:05:07");
    assert_eq!(alarm_time_label(false, 11, 1, 23, 59, 0), "Dec 1 23:59:00");
    assert_eq!(alarm_time_label(false, 12, 3, 0, 0, 0), "??? 3 00:00:00");
}
