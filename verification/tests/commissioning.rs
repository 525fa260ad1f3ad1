use bms_store_gui::calendar::days_to_ymd;
use bms_store_gui::civil::civil_from_day_number;
use bms_store_gui::components::commissioning_overview::{
    device_display_name, overview_counts, row_percent, session_badge_class, summary_csv, CommissionSummary,
};
use bms_store_gui::components::commissioning_tab::{
    action_effect, build_csv, commission_progress, commission_seeds, confirm_prompt, confirm_update, csv_escape,
    filter_items, format_timestamp, item_actions, on_created_lookup, on_points, on_session_created,
    on_session_lookup, panel_controls, parse_status_filter, progress_text, signoff_notice, status_badge_class,
    type_badge_class, username_or_system, ActionEffect, AuditKind, CommissionItem, ItemAction, ItemStatus,
    ItemType, LoadAction, SessionStatus,
};

#[test]
fn timestamp_at_epoch_and_after() {
    assert_eq!(format_timestamp(0), "1970-01-01 00:00");
    assert_eq!(format_timestamp(1_700_000_000_000), "2023-11-14 22:13");
    assert_eq!(format_timestamp(951_782_400_000), "2000-02-29 00:00");
    assert_eq!(format_timestamp(951_868_799_999), "2000-02-29 23:59");
}

#[test]
fn timestamp_before_epoch_counts_back() {
    // Less than a second before the epoch truncates to second zero.
    assert_eq!(format_timestamp(-1), "1970-01-01 00:00");
    assert_eq!(format_timestamp(-1_000), "1969-12-31 23:59");
    assert_eq!(format_timestamp(-86_400_000), "1969-12-31 00:00");
    assert_eq!(format_timestamp(-62_135_596_800_000), "0001-01-01 00:00");
    assert_eq!(format_timestamp(-62_167_219_200_000), "0000-01-01 00:00");
    assert_eq!(format_timestamp(-62_198_755_200_000), "-001-01-01 00:00");
}

#[test]
fn timestamp_at_extremes() {
    assert_eq!(format_timestamp(i64::MAX), "292278994-08-17 07:12");
    assert_eq!(format_timestamp(i64::MIN), "-292275055-05-16 16:47");
}

#[test]
fn civil_days_around_epoch_and_leap_days() {
    assert_eq!(civil_from_day_number(0), (1970, 1, 1));
    assert_eq!(civil_from_day_number(-1), (1969, 12, 31));
    assert_eq!(civil_from_day_number(11_016), (2000, 2, 29));
    assert_eq!(civil_from_day_number(-25_508), (1900, 3, 1));
    assert_eq!(civil_from_day_number(-25_509), (1900, 2, 28));
    assert_eq!(civil_from_day_number(-719_468), (0, 3, 1));
    assert_eq!(civil_from_day_number(-719_469), (0, 2, 29));
}

#[test]
fn civil_days_agree_with_count_from_1970() {
    let mut d: i64 = 0;
    while d < 200_000 {
        let (y, m, day) = days_to_ymd(d as u64);
        assert_eq!(civil_from_day_number(d), (y as i64, m as i64, day as i64));
        d += 97;
    }
}

#[test]
fn civil_days_are_consecutive() {
    let mut prev = civil_from_day_number(-800_000);
    let mut d: i64 = -799_999;
    while d < 100_000 {
        let cur = civil_from_day_number(d);
        let next_in_month = (prev.0, prev.1, prev.2 + 1);
        let next_month = if prev.1 == 12 { (prev.0 + 1, 1, 1) } else { (prev.0, prev.1 + 1, 1) };
        assert!(cur == next_in_month || cur == next_month, "day {d}: {prev:?} -> {cur:?}");
        prev = cur;
        d += 1;
    }
}

#[test]
fn commissioning_csv_escape_leaves_carriage_return() {
    assert_eq!(csv_escape("plain"), "plain");
    assert_eq!(csv_escape("a,b"), "\"a,b\"");
    assert_eq!(csv_escape("say \"hi\""), "\"say \"\"hi\"\"\"");
    assert_eq!(csv_escape("two\nlines"), "\"two\nlines\"");
    assert_eq!(csv_escape("a\rb"), "a\rb");
}

fn item(point: &str, notes: &str, verified_ms: Option<i64>) -> CommissionItem {
    CommissionItem {
        id: 1,
        point_id: point.to_string(),
        item_type: ItemType::ReadVerify,
        status: ItemStatus::Verified,
        item_type_label: "Read Verify".to_string(),
        status_label: "Verified".to_string(),
        verified_by: verified_ms.map(|_| "alice".to_string()),
        verified_ms,
        actual_value: Some("21.5".to_string()),
        notes: notes.to_string(),
    }
}

#[test]
fn commissioning_report_lines() {
    let items = vec![
        item("analog-input,1", "ok", Some(0)),
        item("binary-value-2", "", None),
    ];
    let csv = build_csv(&items);
    assert_eq!(
        csv,
        "point_id,point_name,item_type,status,verified_by,verified_at,actual_value,notes\n\
         \"analog-input,1\",\"analog-input,1\",Read Verify,Verified,alice,1970-01-01 00:00,21.5,ok\n\
         binary-value-2,binary-value-2,Read Verify,Verified,,,21.5,\n"
    );
}

#[test]
fn commissioning_report_of_nothing_is_the_header() {
    assert_eq!(
        build_csv(&vec![]),
        "point_id,point_name,item_type,status,verified_by,verified_at,actual_value,notes\n"
    );
}

#[test]
fn overview_report_lines() {
    let data = vec![(
        CommissionSummary {
            device_id: "bacnet-1001".to_string(),
            status: SessionStatus::InProgress,
            status_text: "in_progress".to_string(),
            total: 12,
            verified: 7,
            failed: 1,
            deferred: 0,
            not_started: 4,
        },
        "AHU-1, north wing".to_string(),
    )];
    assert_eq!(
        summary_csv(&data),
        "device_id,device_name,status,total,verified,failed,deferred,not_started\n\
         bacnet-1001,AHU-1; north wing,in_progress,12,7,1,0,4\n"
    );
}

fn with_status(id: i64, status: ItemStatus) -> CommissionItem {
    let mut it = item(&format!("p{id}"), "", None);
    it.id = id;
    it.status = status;
    it
}

#[test]
fn progress_counts_and_percents() {
    let items = vec![
        with_status(1, ItemStatus::Verified),
        with_status(2, ItemStatus::Verified),
        with_status(3, ItemStatus::Failed),
        with_status(4, ItemStatus::NotStarted),
        with_status(5, ItemStatus::Deferred),
        with_status(6, ItemStatus::InProgress),
    ];
    let p = commission_progress(&items);
    assert_eq!((p.total, p.verified, p.failed, p.deferred), (6, 2, 1, 1));
    assert_eq!((p.pct_verified, p.pct_failed, p.pct_deferred), (33, 16, 16));
    assert!(p.pct_verified + p.pct_failed + p.pct_deferred <= 100);
    assert_eq!(progress_text(&p), "Progress: 2/6 verified | 1 failed | 1 deferred");
    let empty = commission_progress(&vec![]);
    assert_eq!((empty.total, empty.pct_verified, empty.pct_failed, empty.pct_deferred), (0, 0, 0, 0));
}

#[test]
fn filter_shows_matching_positions() {
    let items = vec![
        with_status(1, ItemStatus::Verified),
        with_status(2, ItemStatus::Failed),
        with_status(3, ItemStatus::Verified),
    ];
    assert_eq!(filter_items(&items, None), vec![0, 1, 2]);
    assert_eq!(filter_items(&items, Some(ItemStatus::Verified)), vec![0, 2]);
    assert_eq!(filter_items(&items, Some(ItemStatus::Deferred)), Vec::<usize>::new());
    let shown = filter_items(&items, Some(ItemStatus::Verified)).len();
    assert_eq!(shown, commission_progress(&items).verified);
}

#[test]
fn status_filter_choices() {
    assert_eq!(parse_status_filter("not_started"), Some(ItemStatus::NotStarted));
    assert_eq!(parse_status_filter("in_progress"), Some(ItemStatus::InProgress));
    assert_eq!(parse_status_filter("verified"), Some(ItemStatus::Verified));
    assert_eq!(parse_status_filter("failed"), Some(ItemStatus::Failed));
    assert_eq!(parse_status_filter("deferred"), Some(ItemStatus::Deferred));
    assert_eq!(parse_status_filter("all"), None);
    assert_eq!(parse_status_filter("Verified"), None);
}

#[test]
fn badge_classes() {
    assert_eq!(type_badge_class(ItemType::ReadVerify), "badge badge-info");
    assert_eq!(type_badge_class(ItemType::WriteVerify), "badge badge-warning");
    assert_eq!(type_badge_class(ItemType::AlarmVerify), "badge badge-danger");
    assert_eq!(type_badge_class(ItemType::ScheduleVerify), "badge badge-inactive");
    assert_eq!(status_badge_class(ItemStatus::NotStarted), "badge badge-inactive");
    assert_eq!(status_badge_class(ItemStatus::InProgress), "badge badge-info");
    assert_eq!(status_badge_class(ItemStatus::Verified), "badge badge-ok");
    assert_eq!(status_badge_class(ItemStatus::Failed), "badge badge-danger");
    assert_eq!(status_badge_class(ItemStatus::Deferred), "badge badge-warning");
    assert_eq!(session_badge_class(SessionStatus::NotStarted), "badge badge-inactive");
    assert_eq!(session_badge_class(SessionStatus::InProgress), "badge badge-info");
    assert_eq!(session_badge_class(SessionStatus::Completed), "badge badge-warning");
    assert_eq!(session_badge_class(SessionStatus::SignedOff), "badge badge-ok");
}

#[test]
fn seeds_follow_writability() {
    let seeds = commission_seeds(&vec![("ai-1".to_string(), false), ("ao-2".to_string(), true)]);
    assert_eq!(seeds.len(), 2);
    assert_eq!(seeds[0].point_id, "ai-1");
    assert!(!seeds[0].writable && !seeds[0].alarmable && !seeds[0].schedulable);
    assert_eq!(seeds[1].point_id, "ao-2");
    assert!(seeds[1].writable && seeds[1].alarmable && seeds[1].schedulable);
}

#[test]
fn loading_a_checklist_step_by_step() {
    assert!(matches!(on_session_lookup(Some(7), false), LoadAction::ListItems(7)));
    assert!(matches!(on_session_lookup(None, false), LoadAction::ShowReadOnly));
    assert!(matches!(on_session_lookup(None, true), LoadAction::FetchPoints));
    match on_points(&vec![]) {
        LoadAction::Fail(m) => assert_eq!(m, "No discovered points for this device."),
        _ => panic!("expected a failure"),
    }
    match on_points(&vec![("ai-1".to_string(), true)]) {
        LoadAction::CreateSession(seeds) => assert_eq!(seeds.len(), 1),
        _ => panic!("expected seeds"),
    }
    assert!(matches!(on_session_created(Ok(())), LoadAction::RecordStartAndLookUp));
    match on_session_created(Err("disk full".to_string())) {
        LoadAction::Fail(m) => assert_eq!(m, "Failed to create session: disk full"),
        _ => panic!("expected a failure"),
    }
    assert!(matches!(on_created_lookup(Some(9)), LoadAction::ListItems(9)));
    match on_created_lookup(None) {
        LoadAction::Fail(m) => assert_eq!(m, "Session created but not found."),
        _ => panic!("expected a failure"),
    }
}

#[test]
fn row_buttons_by_status() {
    let (v, f, d, r) = (ItemAction::Verify, ItemAction::Fail, ItemAction::Defer, ItemAction::Retry);
    assert_eq!(item_actions(ItemStatus::NotStarted), vec![v, f, d]);
    assert_eq!(item_actions(ItemStatus::InProgress), vec![v, f, d]);
    assert_eq!(item_actions(ItemStatus::Verified), Vec::<ItemAction>::new());
    assert_eq!(item_actions(ItemStatus::Failed), vec![r, d]);
    assert_eq!(item_actions(ItemStatus::Deferred), vec![r]);
}

#[test]
fn row_button_effects() {
    assert!(matches!(
        action_effect(ItemStatus::NotStarted, ItemType::ReadVerify, ItemAction::Verify, "ai-1"),
        Some(ActionEffect::Confirm)
    ));
    match action_effect(ItemStatus::InProgress, ItemType::AlarmVerify, ItemAction::Verify, "ai-1") {
        Some(ActionEffect::Update(u)) => {
            assert_eq!(u.status, ItemStatus::Verified);
            assert!(u.record_user && !u.record_value);
            assert_eq!(u.audit, AuditKind::VerifyItem);
            assert_eq!(u.details, "ai-1");
        }
        _ => panic!("expected an update"),
    }
    match action_effect(ItemStatus::Failed, ItemType::ReadVerify, ItemAction::Retry, "ai-1") {
        Some(ActionEffect::Update(u)) => {
            assert_eq!(u.status, ItemStatus::NotStarted);
            assert!(!u.record_user);
            assert_eq!(u.audit, AuditKind::VerifyItem);
            assert_eq!(u.details, "retry: ai-1");
        }
        _ => panic!("expected an update"),
    }
    match action_effect(ItemStatus::Failed, ItemType::ReadVerify, ItemAction::Defer, "ai-1") {
        Some(ActionEffect::Update(u)) => {
            assert_eq!(u.status, ItemStatus::Deferred);
            assert!(!u.record_user);
            assert_eq!(u.audit, AuditKind::DeferItem);
        }
        _ => panic!("expected an update"),
    }
    match action_effect(ItemStatus::NotStarted, ItemType::WriteVerify, ItemAction::Defer, "ao-2") {
        Some(ActionEffect::Update(u)) => {
            assert_eq!(u.status, ItemStatus::Deferred);
            assert!(u.record_user);
        }
        _ => panic!("expected an update"),
    }
    assert!(action_effect(ItemStatus::Verified, ItemType::ReadVerify, ItemAction::Retry, "x").is_none());
    assert!(action_effect(ItemStatus::Deferred, ItemType::ReadVerify, ItemAction::Defer, "x").is_none());
    assert!(action_effect(ItemStatus::NotStarted, ItemType::ReadVerify, ItemAction::Retry, "x").is_none());
}

#[test]
fn every_offered_button_changes_the_status() {
    let statuses = [
        ItemStatus::NotStarted,
        ItemStatus::InProgress,
        ItemStatus::Verified,
        ItemStatus::Failed,
        ItemStatus::Deferred,
    ];
    for st in statuses {
        for a in item_actions(st) {
            match action_effect(st, ItemType::AlarmVerify, a, "p") {
                Some(ActionEffect::Update(u)) => assert_ne!(u.status, st),
                _ => panic!("offered action without effect"),
            }
        }
    }
}

#[test]
fn confirming_a_live_value() {
    let yes = confirm_update(true, "ai-1");
    assert_eq!(yes.status, ItemStatus::Verified);
    assert!(yes.record_user && yes.record_value);
    assert_eq!(yes.audit, AuditKind::VerifyItem);
    let no = confirm_update(false, "ai-1");
    assert_eq!(no.status, ItemStatus::Failed);
    assert_eq!(no.audit, AuditKind::FailItem);
    assert_eq!(confirm_prompt(ItemType::ReadVerify, "ai-1"), "Current value for ai-1: ");
    assert_eq!(
        confirm_prompt(ItemType::WriteVerify, "ao-2"),
        "Write test for ao-2 — use the Write Dialog to command a value, then verify the current readback: "
    );
}

#[test]
fn panel_controls_by_role_and_session() {
    let c = panel_controls(false, None);
    assert!(c.read_only_notice && c.export == false && !c.sign_off && !c.reset && !c.row_actions);
    let c = panel_controls(true, Some(SessionStatus::Completed));
    assert!(!c.read_only_notice && c.sign_off && c.export && c.reset && c.row_actions && !c.signed_off_notice);
    let c = panel_controls(true, Some(SessionStatus::SignedOff));
    assert!(!c.sign_off && c.export && !c.reset && !c.row_actions && c.signed_off_notice);
    let c = panel_controls(true, Some(SessionStatus::InProgress));
    assert!(!c.sign_off && c.reset);
}

#[test]
fn signoff_notice_and_username() {
    assert_eq!(
        signoff_notice(&Some("alice".to_string()), Some(0)),
        "Signed off by alice on 1970-01-01 00:00"
    );
    assert_eq!(signoff_notice(&None, None), "Signed off by  on ");
    assert_eq!(username_or_system(&Some("bob".to_string())), "bob");
    assert_eq!(username_or_system(&None), "system");
}

fn summary(status: SessionStatus, total: u64, verified: u64) -> (CommissionSummary, String) {
    (
        CommissionSummary {
            device_id: "d".to_string(),
            status,
            status_text: String::new(),
            total,
            verified,
            failed: 0,
            deferred: 0,
            not_started: total - verified,
        },
        "D".to_string(),
    )
}

#[test]
fn overview_cards_count_every_device_once() {
    let data = vec![
        summary(SessionStatus::SignedOff, 4, 4),
        summary(SessionStatus::Completed, 4, 3),
        summary(SessionStatus::InProgress, 4, 1),
        summary(SessionStatus::NotStarted, 4, 0),
        summary(SessionStatus::NotStarted, 0, 0),
    ];
    let c = overview_counts(&data);
    assert_eq!((c.total_devices, c.signed_off, c.in_progress, c.not_started), (5, 1, 2, 2));
    assert_eq!(row_percent(3, 4), 75);
    assert_eq!(row_percent(1, 3), 33);
    assert_eq!(row_percent(0, 0), 0);
    assert_eq!(device_display_name(Some("AHU-1".to_string()), &"bacnet-1".to_string()), "AHU-1");
    assert_eq!(device_display_name(None, &"bacnet-1".to_string()), "bacnet-1");
}
