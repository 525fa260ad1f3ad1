use bms_store_gui::components::alarm_params::{
    alarm_type_fields, build_alarm_plan, describe_plan, read_states, AlarmFormInput, AlarmParamsPlan, FormField,
};

fn input(delay: &str, timeout: &str, value: &str, states: &str, dev: &str, pt: &str) -> AlarmFormInput {
    AlarmFormInput {
        delay: delay.to_string(),
        timeout: timeout.to_string(),
        alarm_value: value.to_string(),
        alarm_states: states.to_string(),
        fb_device: dev.to_string(),
        fb_point: pt.to_string(),
    }
}

#[test]
fn whole_number_fields_are_checked() {
    let i = input("30", "600", "true", "", "", "");
    assert_eq!(build_alarm_plan("high_limit", &i), Ok(AlarmParamsPlan::HighLimit { delay_secs: 30 }));
    assert_eq!(build_alarm_plan("stale", &i), Ok(AlarmParamsPlan::Stale { timeout_secs: 600 }));
    assert_eq!(
        build_alarm_plan("state_change", &i),
        Ok(AlarmParamsPlan::StateChange { alarm_value: true, delay_secs: 30 })
    );
    let bad = input("-5", "x", "false", "", "", "");
    assert_eq!(build_alarm_plan("low_limit", &bad), Err("Invalid delay: must be a positive integer".to_string()));
    assert_eq!(build_alarm_plan("stale", &bad), Err("Invalid timeout: must be a positive integer".to_string()));
    assert_eq!(build_alarm_plan("deviation", &i), Err("Unknown alarm type.".to_string()));
}

#[test]
fn fields_a_type_does_not_show_are_not_read() {
    let good = input("30", "600", "true", "1", "d", "p");
    let garbage = input("30", "never", "maybe", ",,", "", "");
    assert_eq!(build_alarm_plan("high_limit", &garbage), build_alarm_plan("high_limit", &good));
    assert_eq!(build_alarm_plan("high_limit", &garbage), Ok(AlarmParamsPlan::HighLimit { delay_secs: 30 }));
    let stale = input("-1", "600", "", "", "", "");
    assert_eq!(build_alarm_plan("stale", &stale), Ok(AlarmParamsPlan::Stale { timeout_secs: 600 }));
    let mut other = input("30", "600", "true", "1", "d", "p");
    other.timeout = "x".to_string();
    assert_eq!(build_alarm_plan("state_fault", &other), Ok(AlarmParamsPlan::StateFault { delay_secs: 30 }));
}

#[test]
fn multistate_alarms_need_a_state() {
    assert_eq!(read_states(" 1, 3,x, 4 "), vec![1, 3, 4]);
    assert_eq!(read_states(""), Vec::<i64>::new());
    let i = input("0", "", "", "2, -1", "", "");
    assert_eq!(
        build_alarm_plan("multi_state_alarm", &i),
        Ok(AlarmParamsPlan::MultiStateAlarm { alarm_states: vec![2, -1], delay_secs: 0 })
    );
    let none = input("bad", "", "", "a, b", "", "");
    assert_eq!(build_alarm_plan("multi_state_alarm", &none), Err("Enter at least one alarm state number.".to_string()));
}

#[test]
fn command_mismatch_needs_feedback() {
    let i = input("5", "", "", "", "dev-1", "");
    assert_eq!(build_alarm_plan("command_mismatch", &i), Err("Select feedback device and point.".to_string()));
    let i = input("5", "", "", "", "dev-1", "pt-2");
    assert_eq!(
        build_alarm_plan("command_mismatch", &i),
        Ok(AlarmParamsPlan::CommandMismatch {
            feedback_device_id: "dev-1".to_string(),
            feedback_point_id: "pt-2".to_string(),
            delay_secs: 5
        })
    );
}

#[test]
fn fields_by_alarm_type() {
    assert_eq!(alarm_type_fields("high_limit"), vec![FormField::Limit, FormField::Deadband, FormField::Delay]);
    assert_eq!(alarm_type_fields("stale"), vec![FormField::Timeout]);
    assert_eq!(
        alarm_type_fields("command_mismatch"),
        vec![FormField::FeedbackDevice, FormField::FeedbackPoint, FormField::Delay]
    );
    assert!(alarm_type_fields("other").is_empty());
}

#[test]
fn descriptions() {
    assert_eq!(describe_plan(&AlarmParamsPlan::Stale { timeout_secs: 300 }), "timeout: 300s");
    assert_eq!(
        describe_plan(&AlarmParamsPlan::StateChange { alarm_value: false, delay_secs: 10 }),
        "alarm when: OFF, delay: 10s"
    );
    assert_eq!(
        describe_plan(&AlarmParamsPlan::MultiStateAlarm { alarm_states: vec![1, -3, 4], delay_secs: 0 }),
        "states: [1, -3, 4]"
    );
    assert_eq!(
        describe_plan(&AlarmParamsPlan::CommandMismatch {
            feedback_device_id: "d".to_string(),
            feedback_point_id: "p".to_string(),
            delay_secs: 0
        }),
        "fb: d/p, delay: 0s"
    );
    assert_eq!(describe_plan(&AlarmParamsPlan::HighLimit { delay_secs: 0 }), "");
    assert_eq!(describe_plan(&AlarmParamsPlan::HighLimit { delay_secs: 7 }), ", delay: 7s");
}

use bms_store_gui::components::alarm_params::{check_target, create_error_text, default_form, device_point_ids};
use bms_store_gui::components::alarm_view::{LoadedDevice, PointKind, ProfilePoint};

fn device(id: &str, points: &[&str]) -> LoadedDevice {
    LoadedDevice {
        instance_id: id.to_string(),
        profile_name: "p".to_string(),
        points: points
            .iter()
            .map(|p| ProfilePoint { id: p.to_string(), name: p.to_string(), kind: PointKind::Analog })
            .collect(),
    }
}

#[test]
fn form_defaults_and_target_checks() {
    let f = default_form();
    assert_eq!((f.delay.as_str(), f.timeout.as_str(), f.alarm_value.as_str(), f.alarm_states.as_str()), ("0", "300", "true", "1"));
    assert!(f.fb_device.is_empty() && f.fb_point.is_empty());
    assert_eq!(check_target(&String::new(), &"p".to_string()), Some("Select a device and point."));
    assert_eq!(check_target(&"d".to_string(), &"p".to_string()), None);
    assert_eq!(create_error_text("duplicate"), "Error: duplicate");
}

#[test]
fn point_list_follows_the_device() {
    let devs = vec![device("100", &["ai-1", "ai-2"]), device("200", &["bo-1"]), device("100", &["x"])];
    assert_eq!(device_point_ids(&devs, &"100".to_string()), vec!["ai-1".to_string(), "ai-2".to_string()]);
    assert_eq!(device_point_ids(&devs, &"200".to_string()), vec!["bo-1".to_string()]);
    assert!(device_point_ids(&devs, &"300".to_string()).is_empty());
}

use bms_store_gui::components::alarm_params::{batch_outcome, selection_texts};

#[test]
fn bulk_alarm_creation_messages() {
    assert_eq!(batch_outcome(Ok(3)), ("Created 3 alarm(s)".to_string(), true));
    assert_eq!(batch_outcome(Ok(0)), ("All alarms already exist (skipped duplicates)".to_string(), true));
    assert_eq!(batch_outcome(Err("locked".to_string())), ("Error: locked".to_string(), false));
    assert_eq!(selection_texts(4), ("4 point(s) selected".to_string(), "Apply to 4 point(s)".to_string()));
}
