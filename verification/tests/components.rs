use bms_store_gui::alarm_model::{AlarmSeverity, AlarmType};
use bms_store_gui::components::alarm_routing_view::{
    delay_text, delivery_badge_class, device_filter_display, error_text, filter_log, new_rule_recipient,
    recipient_label, yes_no, DeliveryStatus,
};
use bms_store_gui::components::api_keys_view::{
    can_create, create_failed_text, key_status, last_used_text, parse_role_choice, revoke_before_text, revoke_title,
    KeyRole,
};
use bms_store_gui::components::alarm_view::{
    ack_audit_texts, bacnet_device_instance, format_alarm_csv, remote_ack, shelve_expiry_at, shelve_remaining,
    shelve_target_label, AlarmCsvEvent, RemoteAck,
};
use bms_store_gui::components::alarm_view::{
    alarm_type_event_code, alarm_type_to_event_state, collect_visible_points, csv_escape,
    device_matches_alarm, parse_bacnet_object_id, parse_datetime_fields, epoch_to_ms,
    split_object_id, HistoryFilterSnapshot, LoadedDevice, PointKind, ProfilePoint,
};
use bms_store_gui::components::atlas_settings;
use bms_store_gui::components::cloud_settings::{self, provider_badge_color};
use bms_store_gui::components::config_view::ConfigSection;
use bms_store_gui::components::coverage_view::{score_entity, CoverageScore, Severity};
use bms_store_gui::components::cross_site_alarm_view::{self, severity_class};
use rustbac_core::types::{ObjectId, ObjectType};

#[test]
fn severity_classes() {
    assert_eq!(severity_class(AlarmSeverity::Critical), "sev-critical");
    assert_eq!(severity_class(AlarmSeverity::LifeSafety), "sev-life-safety");
    assert_eq!(severity_class(AlarmSeverity::Warning), "sev-warning");
    assert_eq!(severity_class(AlarmSeverity::Info), "sev-info");
}

#[test]
fn compact_age_tiers() {
    let ms = 1_000_000; // 1000 s
    assert_eq!(cross_site_alarm_view::format_ms_at(ms, 1000 + 59), "just now");
    assert_eq!(cross_site_alarm_view::format_ms_at(ms, 1000 + 120), "2 min ago");
    assert_eq!(cross_site_alarm_view::format_ms_at(ms, 1000 + 7200), "2 h ago");
    assert_eq!(cross_site_alarm_view::format_ms_at(ms, 1000 + 2 * 86400), "2 d ago");
    assert_eq!(cross_site_alarm_view::format_ms_at(ms, 0), "just now");
}

#[test]
fn atlas_age_in_days() {
    assert_eq!(atlas_settings::format_timestamp_at(0, 123), "Unknown");
    assert_eq!(atlas_settings::format_timestamp_at(1_000_000, 1100), "Today");
    assert_eq!(atlas_settings::format_timestamp_at(1_000_000, 1000 + 86400), "Yesterday");
    assert_eq!(atlas_settings::format_timestamp_at(1_000_000, 1000 + 3 * 86400), "3 days ago");
    assert_eq!(atlas_settings::format_timestamp_at(1_000_000, 1000 - 2 * 86400), "-2 days ago");
}

#[test]
fn cloud_age_in_minutes() {
    assert_eq!(cloud_settings::format_timestamp_at(0, 30), "Just now");
    assert_eq!(cloud_settings::format_timestamp_at(0, 600), "10m ago");
    assert_eq!(cloud_settings::format_timestamp_at(0, 7200), "2h ago");
    assert_eq!(cloud_settings::format_timestamp_at(0, 3 * 86400), "3d ago");
}

#[test]
fn clock_based_ages_are_well_formed() {
    assert_eq!(atlas_settings::format_timestamp(0), "Unknown");
    assert!(cloud_settings::format_timestamp(i64::MAX / 2).len() > 0);
    assert!(cross_site_alarm_view::format_ms(0).ends_with("d ago"));
}

#[test]
fn provider_colours() {
    assert_eq!(provider_badge_color("aws_iot_core"), "#FF9900");
    assert_eq!(provider_badge_color("azure_iot_hub"), "#0078D4");
    assert_eq!(provider_badge_color("google_pubsub"), "#4285F4");
    assert_eq!(provider_badge_color("mqtt"), "#666666");
}

#[test]
fn visible_sections_by_permission() {
    let base = ConfigSection::visible_sections(false, false, false, false, false, false);
    assert_eq!(
        base,
        vec![
            ConfigSection::Haystack,
            ConfigSection::Discovery,
            ConfigSection::Programming,
            ConfigSection::VirtualPoints,
            ConfigSection::Plugins,
            ConfigSection::Appearance,
            ConfigSection::Atlas,
        ]
    );
    let all = ConfigSection::visible_sections(true, true, true, true, true, true);
    assert_eq!(all.len(), 14);
    assert_eq!(all[6], ConfigSection::Mqtt);
    assert_eq!(all[10], ConfigSection::Atlas);
    assert_eq!(all[11], ConfigSection::WebServer);
    assert_eq!(all[13], ConfigSection::AuditLog);
    let users_only = ConfigSection::visible_sections(true, false, false, false, false, false);
    assert_eq!(&users_only[6..], &[ConfigSection::Atlas, ConfigSection::WebServer, ConfigSection::Users]);
}

#[test]
fn visible_sections_keep_the_full_order() {
    let all = ConfigSection::visible_sections(true, true, true, true, true, true);
    let some = ConfigSection::visible_sections(false, true, false, true, false, true);
    let expected: Vec<ConfigSection> = all
        .iter()
        .copied()
        .filter(|s| !matches!(s, ConfigSection::Webhooks | ConfigSection::DataExport | ConfigSection::WebServer | ConfigSection::Users))
        .collect();
    assert_eq!(some, expected);
}

#[test]
fn section_labels() {
    assert_eq!(ConfigSection::VirtualPoints.label(), "Virtual Points");
    assert_eq!(ConfigSection::Mqtt.label(), "MQTT");
    assert_eq!(ConfigSection::DataExport.label(), "Data Export");
}

fn tags(names: &[&str]) -> Vec<String> {
    names.iter().map(|s| s.to_string()).collect()
}

#[test]
fn coverage_tiers() {
    assert_eq!(score_entity(&tags(&[]), &vec![]), CoverageScore::Untagged);
    assert_eq!(score_entity(&tags(&["equip"]), &vec![Severity::Error]), CoverageScore::Partial);
    assert_eq!(score_entity(&tags(&["point"]), &vec![Severity::Error]), CoverageScore::Partial);
    assert_eq!(score_entity(&tags(&["point", "equipRef"]), &vec![]), CoverageScore::Partial);
    assert_eq!(score_entity(&tags(&["point", "temp"]), &vec![Severity::Info]), CoverageScore::Full);
    assert_eq!(score_entity(&tags(&["equip", "ahu", "air"]), &vec![Severity::Info, Severity::Warning]), CoverageScore::HasWarnings);
    assert_eq!(score_entity(&tags(&["sp"]), &vec![Severity::Error]), CoverageScore::HasWarnings);
}

#[test]
fn coverage_texts() {
    assert_eq!(CoverageScore::Untagged.pct(), 0);
    assert_eq!(CoverageScore::Partial.pct(), 50);
    assert_eq!(CoverageScore::HasWarnings.pct(), 75);
    assert_eq!(CoverageScore::Full.pct(), 100);
    assert_eq!(CoverageScore::Partial.label(), "Partial (50%)");
    assert_eq!(CoverageScore::Full.css_class(), "cov-score-full");
    assert_eq!(CoverageScore::Untagged.explain(), "No tags applied — create an entity to start tagging.");
}

#[test]
fn csv_escape_quotes_when_needed() {
    assert_eq!(csv_escape("plain"), "plain");
    assert_eq!(csv_escape("a,b"), "\"a,b\"");
    assert_eq!(csv_escape("say \"hi\""), "\"say \"\"hi\"\"\"");
    assert_eq!(csv_escape("a\rb"), "\"a\rb\"");
    assert_eq!(csv_escape("a\nb"), "\"a\nb\"");
}

fn unquote_csv(f: &str) -> String {
    if f.len() >= 2 && f.starts_with('"') && f.ends_with('"') {
        f[1..f.len() - 1].replace("\"\"", "\"")
    } else {
        f.to_string()
    }
}

#[test]
fn csv_escape_reads_back() {
    for s in ["plain", "a,b", "say \"hi\"", "\"", "\"\"\"", "x\r\ny", "", "\"quoted\""] {
        assert_eq!(unquote_csv(&csv_escape(s)), s);
    }
}

fn snapshot(transition: &str) -> HistoryFilterSnapshot {
    HistoryFilterSnapshot {
        severity: Some(AlarmSeverity::Warning),
        search: String::new(),
        device: "dev-1".to_string(),
        point: String::new(),
        transition: transition.to_string(),
        start: String::new(),
        end: String::new(),
        limit: 200,
    }
}

#[test]
fn history_query_from_filter() {
    let q = snapshot("raised").to_query(Some(5), None);
    assert_eq!(q.device_id, Some("dev-1".to_string()));
    assert_eq!(q.point_id, None);
    assert_eq!(q.search, None);
    assert_eq!(q.severity, Some(AlarmSeverity::Warning));
    assert_eq!(q.from_state, Some("normal".to_string()));
    assert_eq!(q.to_state, Some("offnormal".to_string()));
    assert_eq!(q.start_ms, Some(5));
    assert_eq!(q.end_ms, None);
    assert_eq!(q.limit, Some(200));
    let ack = snapshot("acknowledged").to_query(None, None);
    assert_eq!((ack.from_state, ack.to_state), (None, Some("acknowledged".to_string())));
    let cleared = snapshot("cleared").to_query(None, None);
    assert_eq!((cleared.from_state, cleared.to_state), (None, Some("normal".to_string())));
    let any = snapshot("").to_query(None, None);
    assert_eq!((any.from_state, any.to_state), (None, None));
}

#[test]
fn datetime_local_fields() {
    let f = parse_datetime_fields("2026-03-24T14:30").unwrap();
    assert_eq!((f.tm_year, f.tm_mon, f.tm_mday, f.tm_hour, f.tm_min, f.tm_sec), (126, 2, 24, 14, 30, 0));
    let g = parse_datetime_fields("2026-03-24T14:30:15").unwrap();
    assert_eq!(g.tm_sec, 15);
    assert!(parse_datetime_fields("").is_none());
    assert!(parse_datetime_fields("2026-03-24").is_none());
    assert!(parse_datetime_fields("2026-03-24T14").is_none());
    assert!(parse_datetime_fields("2026-03T14:30").is_none());
    let h = parse_datetime_fields("2026-x-03-24T14:30").unwrap();
    assert_eq!((h.tm_year, h.tm_mon, h.tm_mday), (126, 2, 24));
    assert_eq!(epoch_to_ms(-1), None);
    assert_eq!(epoch_to_ms(1_700_000_000), Some(1_700_000_000_000));
}

#[test]
fn object_id_split_and_parse() {
    let (name, digits) = split_object_id("analog-input-3").unwrap();
    assert_eq!(name, "analog-input");
    assert_eq!(digits, vec!['3']);
    let (name2, digits2) = split_object_id("multi-state-value-12").unwrap();
    assert_eq!(name2, "multi-state-value");
    assert_eq!(digits2, vec!['1', '2']);
    assert!(split_object_id("analog-input-").is_none());
    assert!(split_object_id("analog-input-x").is_none());
    assert!(split_object_id("42").is_none());
    assert!(parse_bacnet_object_id("analog-input-3").is_some());
    assert!(parse_bacnet_object_id("binary-value-0").is_some());
    assert!(parse_bacnet_object_id("foo-3").is_none());
    assert!(parse_bacnet_object_id("analog-input-99999999999").is_none());
}

#[test]
fn bacnet_object_id_packs_type_and_instance() {
    let id = parse_bacnet_object_id("analog-value-7").unwrap();
    assert_eq!(id.instance, 7);
    assert_eq!(id.object_type, ObjectType::AnalogValue);
    let packed = ObjectId::new(id.object_type, id.instance);
    assert_eq!(packed.instance(), 7);
    assert_eq!(packed.object_type().to_u16(), 2);
    let ai = parse_bacnet_object_id("analog-input-1").unwrap();
    assert_eq!((ai.object_type, ai.instance), (ObjectType::AnalogInput, 1));
    let msi = parse_bacnet_object_id("multi-state-input-12").unwrap();
    assert_eq!((msi.object_type, msi.instance), (ObjectType::MultiStateInput, 12));
    assert!(parse_bacnet_object_id("analog-input").is_none());
    assert!(parse_bacnet_object_id("analog-input-").is_none());
    assert!(parse_bacnet_object_id("analog-input-1a").is_none());
}

#[test]
fn alarm_type_event_states() {
    assert_eq!(alarm_type_event_code(&AlarmType::HighLimit), 3);
    assert_eq!(alarm_type_event_code(&AlarmType::LowLimit), 4);
    assert_eq!(alarm_type_event_code(&AlarmType::StateFault), 1);
    assert_eq!(alarm_type_event_code(&AlarmType::Stale), 2);
    assert_eq!(alarm_type_to_event_state(&AlarmType::HighLimit).to_u32(), 3);
    assert_eq!(alarm_type_to_event_state(&AlarmType::CommandMismatch).to_u32(), 2);
}

fn device(id: &str, profile: &str, points: &[(&str, &str, PointKind)]) -> LoadedDevice {
    LoadedDevice {
        instance_id: id.to_string(),
        profile_name: profile.to_string(),
        points: points
            .iter()
            .map(|(i, n, k)| ProfilePoint { id: i.to_string(), name: n.to_string(), kind: *k })
            .collect(),
    }
}

#[test]
fn device_search_is_case_insensitive() {
    let d = device("AHU-1", "Air Handler", &[("ai-1", "Supply Temp", PointKind::Analog)]);
    assert!(device_matches_alarm(&d, ""));
    assert!(device_matches_alarm(&d, "ahu"));
    assert!(device_matches_alarm(&d, "HANDLER"));
    assert!(device_matches_alarm(&d, "supply"));
    assert!(!device_matches_alarm(&d, "boiler"));
}

#[test]
fn visible_points_follow_search_and_kind() {
    let devices = vec![
        device("AHU-1", "Air Handler", &[
            ("ai-1", "Supply Temp", PointKind::Analog),
            ("bi-1", "Fan Status", PointKind::Binary),
        ]),
        device("BLR-1", "Boiler", &[("ai-1", "Water Temp", PointKind::Analog)]),
    ];
    let mut all = collect_visible_points(&devices, "", None);
    all.sort();
    assert_eq!(all.len(), 3);
    let analog = collect_visible_points(&devices, "", Some(PointKind::Analog));
    assert_eq!(analog.len(), 2);
    let fan = collect_visible_points(&devices, "fan", None);
    assert_eq!(fan, vec![("AHU-1".to_string(), "bi-1".to_string())]);
    let ahu = collect_visible_points(&devices, "ahu", Some(PointKind::Binary));
    assert_eq!(ahu, vec![("AHU-1".to_string(), "bi-1".to_string())]);
    let dup = vec![devices[0].clone(), devices[0].clone()];
    assert_eq!(collect_visible_points(&dup, "", None).len(), 2);
}

#[test]
fn alarm_journal_export_lines() {
    let events = vec![
        AlarmCsvEvent {
            timestamp_ms: 1_700_000_000_000,
            datetime: "2023-11-14T23:13:20".to_string(),
            device_id: "bacnet-1001".to_string(),
            point_id: "analog-input-1".to_string(),
            severity: "critical".to_string(),
            from_state: "normal".to_string(),
            to_state: "high, limit".to_string(),
            value_text: "85.25".to_string(),
            note: Some("checked \"twice\"".to_string()),
        },
        AlarmCsvEvent {
            timestamp_ms: -5,
            datetime: "1969-12-31T23:59:59".to_string(),
            device_id: "d".to_string(),
            point_id: "p\r".to_string(),
            severity: "info".to_string(),
            from_state: "a".to_string(),
            to_state: "b".to_string(),
            value_text: "0.00".to_string(),
            note: None,
        },
    ];
    assert_eq!(
        format_alarm_csv(&events),
        "timestamp,datetime,device_id,point_id,severity,from_state,to_state,value,note\n\
         1700000000000,2023-11-14T23:13:20,bacnet-1001,analog-input-1,critical,normal,\"high, limit\",85.25,\"checked \"\"twice\"\"\"\n\
         -5,1969-12-31T23:59:59,d,\"p\r\",info,a,b,0.00,\n"
    );
}

#[test]
fn api_key_form_and_list_text() {
    assert_eq!(parse_role_choice("Admin"), KeyRole::Admin);
    assert_eq!(parse_role_choice("Operator"), KeyRole::Operator);
    assert_eq!(parse_role_choice("Viewer"), KeyRole::Viewer);
    assert_eq!(parse_role_choice("admin"), KeyRole::Viewer);
    assert!(can_create(" ci ", false));
    assert!(!can_create("   ", false));
    assert!(!can_create("ci", true));
    assert_eq!(key_status(true), ("apikeys-status-badge apikeys-status-disabled", "Disabled"));
    assert_eq!(key_status(false), ("apikeys-status-badge apikeys-status-active", "Active"));
    assert_eq!(last_used_text(None), "Never");
    assert_eq!(last_used_text(Some(0)), "1970-01-01 00:00:00");
    assert_eq!(create_failed_text("duplicate"), "Failed to create key: duplicate");
    assert_eq!(revoke_title("CI"), "Revoke API Key: CI");
    assert_eq!(revoke_before_text("bms_ab12", "Viewer"), "bms_ab12 (Viewer)");
}

#[test]
fn routing_tables_and_delivery_log() {
    let recipients = vec![(3, "Ops pager".to_string()), (7, "Facilities".to_string())];
    assert_eq!(recipient_label(&recipients, 7), "Facilities");
    assert_eq!(recipient_label(&recipients, 9), "#9");
    assert_eq!(recipient_label(&recipients, -2), "#-2");
    assert_eq!(new_rule_recipient(&vec![3, 7]), 3);
    assert_eq!(new_rule_recipient(&vec![]), 0);
    assert_eq!(device_filter_display(&String::new()), "All");
    assert_eq!(device_filter_display(&"ahu-*".to_string()), "ahu-*");
    assert_eq!((yes_no(true), yes_no(false)), ("Yes", "No"));
    assert_eq!(delay_text(15), "15m");
    let statuses = vec!["delivered".to_string(), "failed".to_string(), "delivered".to_string()];
    assert_eq!(filter_log(&statuses, ""), vec![0, 1, 2]);
    assert_eq!(filter_log(&statuses, "delivered"), vec![0, 2]);
    assert_eq!(filter_log(&statuses, "pending"), Vec::<usize>::new());
    assert_eq!(delivery_badge_class(DeliveryStatus::Delivered), "badge badge-success");
    assert_eq!(delivery_badge_class(DeliveryStatus::Failed), "badge badge-danger");
    assert_eq!(delivery_badge_class(DeliveryStatus::Retrying), "badge badge-warning");
    assert_eq!(delivery_badge_class(DeliveryStatus::Pending), "badge badge-info");
    assert_eq!(error_text(&None), "-");
    assert_eq!(error_text(&Some("timeout".to_string())), "timeout");
}

#[test]
fn acknowledging_on_bacnet_devices() {
    assert_eq!(bacnet_device_instance("bacnet-1001"), Some(1001));
    assert_eq!(bacnet_device_instance("bacnet-"), None);
    assert_eq!(bacnet_device_instance("modbus-3"), None);
    assert_eq!(bacnet_device_instance("bacnet-4294967296"), None);
    assert!(matches!(remote_ack("modbus-1", "analog-input-1", &AlarmType::HighLimit), RemoteAck::NotBacnet));
    assert!(matches!(remote_ack("bacnet-5", "temperature", &AlarmType::HighLimit), RemoteAck::UnparsedPoint));
    match remote_ack("bacnet-5", "analog-input-7", &AlarmType::LowLimit) {
        RemoteAck::Ack { instance, object, event_state } => {
            assert_eq!(instance, 5);
            assert_eq!(object.instance, 7);
            assert_eq!(object.object_type, ObjectType::AnalogInput);
            assert_eq!(event_state.to_u32(), 4);
        }
        _ => panic!("expected an acknowledgement"),
    }
    assert_eq!(
        ack_audit_texts("bacnet-5", "analog-input-7", 42),
        ("bacnet-5/analog-input-7".to_string(), "config_id=42".to_string())
    );
}

#[test]
fn shelving_times_and_labels() {
    let now = 1_700_000_000_000;
    assert_eq!(shelve_expiry_at("1h", now), Some(now + 3_600_000));
    assert_eq!(shelve_expiry_at("24h", now), Some(now + 86_400_000));
    assert_eq!(shelve_expiry_at("indefinite", now), None);
    assert_eq!(shelve_target_label(Some(9), &Some("d".to_string())), "Config #9");
    assert_eq!(shelve_target_label(None, &Some("bacnet-1".to_string())), "Device: bacnet-1");
    assert_eq!(shelve_target_label(None, &None), "All");
    assert_eq!(shelve_remaining(None, now), "Indefinite");
    assert_eq!(shelve_remaining(Some(now), now), "Expiring...");
    assert_eq!(shelve_remaining(Some(now + 2 * 3_600_000 + 5 * 60_000 + 999), now), "2h 5m");
    assert_eq!(shelve_remaining(Some(now + 59 * 60_000), now), "59m");
    assert_eq!(shelve_remaining(Some(now + 30_000), now), "0m");
}

use bms_store_gui::components::alarm_routing_view::{
    address_placeholder, channel_from_choice, deleted_message, saved_outcome, ChannelType, RecipientForm, RuleForm,
};

#[test]
fn recipient_form_states() {
    let f = RecipientForm::blank();
    assert_eq!(f.title(), "New Recipient");
    assert_eq!(f.config, "{}");
    assert_eq!(f.channel, ChannelType::Webhook);
    let f = RecipientForm { editing_id: Some(3), ..RecipientForm::blank() };
    assert_eq!(f.title(), "Edit Recipient");
    assert_eq!(channel_from_choice("email"), ChannelType::Email);
    assert_eq!(channel_from_choice("sms"), ChannelType::Sms);
    assert_eq!(channel_from_choice("pager"), ChannelType::Webhook);
    assert_eq!(address_placeholder(ChannelType::Sms), "+15551234567");
    assert_eq!(address_placeholder(ChannelType::Email), "ops@example.com");
    assert_eq!(saved_outcome("Recipient", &Ok(())), (true, "Recipient saved".to_string()));
    assert_eq!(saved_outcome("Rule", &Err("bad".to_string())), (false, "Error: bad".to_string()));
    assert_eq!(deleted_message("Ops"), "Deleted Ops");
}

#[test]
fn rule_form_fields_ignore_bad_numbers() {
    let mut f = RuleForm::blank(&vec![7, 9]);
    assert_eq!(f.recipient_id, 7);
    assert_eq!(f.min_severity, "info");
    assert!(f.notify_on_clear && f.tier == 0 && f.delay_mins == 0);
    assert_eq!(f.title(), "New Rule");
    f.type_tier("3");
    f.type_tier("300");
    assert_eq!(f.tier, 3);
    f.type_delay("15");
    f.type_delay("-1");
    assert_eq!(f.delay_mins, 15);
    f.choose_recipient("9");
    f.choose_recipient("x");
    assert_eq!(f.recipient_id, 9);
    assert_eq!(RuleForm::blank(&Vec::new()).recipient_id, 0);
}

use bms_store_gui::components::atlas_settings::{atlas_status, in_memory_text, status_badge, AtlasPanel, AtlasStatus};

#[test]
fn atlas_status_and_badges() {
    assert_eq!(atlas_status(true, false), AtlasStatus::Loaded);
    assert_eq!(atlas_status(false, true), AtlasStatus::Available);
    assert_eq!(atlas_status(false, false), AtlasStatus::NotInstalled);
    assert_eq!(status_badge(AtlasStatus::Available), ("atlas-badge atlas-badge-warn", "Available (not loaded)"));
    assert_eq!(status_badge(AtlasStatus::NotInstalled), ("atlas-badge atlas-badge-off", "Not installed"));
    assert_eq!(in_memory_text(501, 101), "501 points, 101 equipment");
}

#[test]
fn atlas_panel_jobs() {
    let mut p = AtlasPanel::new();
    assert_eq!(p.check_button(), ("Check for Updates", false));
    assert_eq!(p.download_button(false), ("Download Atlas Data", false));
    assert_eq!(p.download_button(true), ("Update Atlas Data", false));
    assert_eq!(p.remove_button(false), None);
    p.start_check();
    assert_eq!(p.check_button(), ("Checking...", true));
    assert_eq!(p.download_button(true), ("Update Atlas Data", true));
    p.finish_check(Err("offline".to_string()));
    assert_eq!(p.error.as_deref(), Some("Update check failed: offline"));
    p.start_download();
    assert_eq!(p.error, None);
    assert_eq!(p.download_button(true), ("Downloading...", true));
    assert_eq!(p.remove_button(true), Some(true));
    p.finish_download(Ok(()));
    assert_eq!(p.refresh, 1);
    assert!(!p.downloading);
    p.finish_remove(Err("busy".to_string()));
    assert_eq!(p.error.as_deref(), Some("Remove failed: busy"));
    assert_eq!(p.refresh, 1);
    p.finish_remove(Ok(()));
    assert_eq!(p.refresh, 2);
}

use bms_store_gui::components::alarm_view::{node_open, node_points, point_kind_badge};

#[test]
fn alarm_browser_nodes() {
    let d = device("100", "AHU", &[("ai-1", "Supply Temp", PointKind::Analog), ("bo-1", "Fan Cmd", PointKind::Binary)]);
    assert_eq!(node_points(&d, ""), vec![0, 1]);
    assert_eq!(node_points(&d, "FAN"), vec![1]);
    assert_eq!(node_points(&d, "ai-"), vec![0]);
    assert!(node_points(&d, "zzz").is_empty());
    assert!(node_open(false, "x"));
    assert!(!node_open(false, ""));
    assert!(node_open(true, ""));
    assert_eq!(point_kind_badge(PointKind::Multistate), ("Ms", "alarm-point-kind ms"));
    assert_eq!(point_kind_badge(PointKind::Analog), ("Ana", "alarm-point-kind ana"));
}

use bms_store_gui::components::alarm_view::ack_all_outcome;

#[test]
fn ack_all_messages() {
    assert_eq!(ack_all_outcome(Ok(4)), ("Acknowledged 4 alarm(s)".to_string(), Some("4 alarms".to_string())));
    assert_eq!(ack_all_outcome(Err("db locked".to_string())), ("Error: db locked".to_string(), None));
}

use bms_store_gui::components::cross_site_alarm_view::{cross_site_body, seven_day_window, unreachable_text, CrossSiteBody};

#[test]
fn cross_site_bodies() {
    assert_eq!(cross_site_body(0, 0), CrossSiteBody::NothingConfigured);
    assert_eq!(cross_site_body(3, 1), CrossSiteBody::Table);
    assert_eq!(cross_site_body(0, 2), CrossSiteBody::ErrorsOnly);
    assert_eq!(unreachable_text("timeout"), " unreachable: timeout");
    assert_eq!(seven_day_window(1_000_000_000_000), (1_000_000_000_000 - 604_800_000, 1_000_000_000_000));
}
