use bms_store_gui::components::cloud_settings::{
    bridge_id_from_uuid, is_secret_field, merge_parsed_with_original, new_bridge_form, plan_save, redact_for_display,
    redact_object, restore_redacted, save_outcome, test_outcome, BridgeAudit, SavePlan, TestStage,
};
use bms_store_gui::json::{copy_json, JsonValue};

fn s(t: &str) -> JsonValue {
    JsonValue::Str(t.to_string())
}

fn obj(entries: Vec<(&str, JsonValue)>) -> JsonValue {
    JsonValue::Object(entries.into_iter().map(|(k, v)| (k.to_string(), v)).collect())
}

fn config() -> JsonValue {
    obj(vec![
        ("endpoint", s("mqtt.example.com")),
        ("port", JsonValue::Number("8883".to_string())),
        ("key_path", s("/etc/bms/key.pem")),
        (
            "auth_method",
            obj(vec![
                ("kind", s("x509")),
                ("cert_path", s("/etc/bms/cert.pem")),
                ("private_key", s("secret")),
            ]),
        ),
        ("topics", JsonValue::Array(vec![obj(vec![("key", s("inside an array"))])])),
        ("enabled", JsonValue::Bool(true)),
    ])
}

fn redacted_config() -> JsonValue {
    obj(vec![
        ("endpoint", s("mqtt.example.com")),
        ("port", JsonValue::Number("8883".to_string())),
        ("key_path", s("***REDACTED***")),
        (
            "auth_method",
            obj(vec![
                ("kind", s("x509")),
                ("cert_path", s("***REDACTED***")),
                ("private_key", s("***REDACTED***")),
            ]),
        ),
        ("topics", JsonValue::Array(vec![obj(vec![("key", s("inside an array"))])])),
        ("enabled", JsonValue::Bool(true)),
    ])
}

#[test]
fn secret_field_names() {
    for k in ["key", "key_pem_path", "key_path", "cert_pem_path", "cert_path", "credentials_json_path", "private_key"] {
        assert!(is_secret_field(k), "{k}");
    }
    assert!(!is_secret_field("endpoint"));
    assert!(!is_secret_field("Key"));
    assert!(!is_secret_field(""));
}

#[test]
fn redaction_hides_secrets_in_nested_objects_only() {
    let mut v = config();
    redact_object(&mut v);
    assert_eq!(v, redacted_config());
}

#[test]
fn redaction_leaves_non_objects() {
    let mut v = s("key");
    redact_object(&mut v);
    assert_eq!(v, s("key"));
    let mut n = JsonValue::Null;
    redact_object(&mut n);
    assert_eq!(n, JsonValue::Null);
}

#[test]
fn redacted_secret_object_is_replaced_whole() {
    let mut v = obj(vec![("key", obj(vec![("inner", s("x"))]))]);
    redact_object(&mut v);
    assert_eq!(v, obj(vec![("key", s("***REDACTED***"))]));
}

#[test]
fn restoring_the_redacted_form_gives_the_original() {
    let original = config();
    let mut shown = copy_json(&original);
    redact_object(&mut shown);
    restore_redacted(&mut shown, &original);
    assert_eq!(shown, original);
}

#[test]
fn restore_keeps_edits_and_unknown_markers() {
    let original = config();
    let mut edited = redacted_config();
    if let JsonValue::Object(es) = &mut edited {
        es[0].1 = s("broker.example.org");
        es.push(("credentials_json_path".to_string(), s("***REDACTED***")));
    }
    restore_redacted(&mut edited, &original);
    let mut expected = config();
    if let JsonValue::Object(es) = &mut expected {
        es[0].1 = s("broker.example.org");
        es.push(("credentials_json_path".to_string(), s("***REDACTED***")));
    }
    assert_eq!(edited, expected);
}

#[test]
fn restore_needs_objects_on_both_sides() {
    let mut edited = obj(vec![("key", s("***REDACTED***"))]);
    restore_redacted(&mut edited, &JsonValue::Null);
    assert_eq!(edited, obj(vec![("key", s("***REDACTED***"))]));
    let mut nested = obj(vec![("auth", obj(vec![("key", s("***REDACTED***"))]))]);
    restore_redacted(&mut nested, &obj(vec![("auth", s("not an object"))]));
    assert_eq!(nested, obj(vec![("auth", obj(vec![("key", s("***REDACTED***"))]))]));
}

#[test]
fn display_and_merge_of_unparsed_text_is_null() {
    assert_eq!(redact_for_display(None), JsonValue::Null);
    assert_eq!(redact_for_display(Some(config())), redacted_config());
    assert_eq!(merge_parsed_with_original(None, Some(config())), JsonValue::Null);
    assert_eq!(merge_parsed_with_original(Some(redacted_config()), Some(config())), config());
    assert_eq!(
        merge_parsed_with_original(Some(redacted_config()), None),
        redacted_config()
    );
}

#[test]
fn bridge_form_defaults_and_save_plan() {
    let f = new_bridge_form();
    assert_eq!((f.name.as_str(), f.provider.as_str(), f.config.as_str()), ("", "aws_iot_core", "{}"));
    assert!(f.enabled && f.on_values && f.on_alarms && f.on_fdd && f.on_device_status);
    match plan_save(false, &None) {
        SavePlan::Reject(m) => assert_eq!(m, "Error: Config must be valid JSON"),
        _ => panic!("expected a rejection"),
    }
    match plan_save(true, &Some("cloud-1a2b".to_string())) {
        SavePlan::Update(id) => assert_eq!(id, "cloud-1a2b"),
        _ => panic!("expected an update"),
    }
    assert!(matches!(plan_save(true, &None), SavePlan::Create));
    assert_eq!(bridge_id_from_uuid("67e55044-10b1-426f-9247-bb680e5fe0c8"), "cloud-67e55044");
    assert_eq!(bridge_id_from_uuid("nodash"), "cloud-nodash");
}

#[test]
fn bridge_save_and_test_outcomes() {
    let ok = save_outcome(true, Ok(()), "Prod");
    assert!(ok.close_form && ok.message.is_none());
    assert_eq!(ok.audit, Some((BridgeAudit::Update, "Saved cloud bridge 'Prod'".to_string())));
    let created = save_outcome(false, Ok(()), "Prod");
    assert_eq!(created.audit.map(|a| a.0), Some(BridgeAudit::Create));
    let err = save_outcome(false, Err("disk".to_string()), "Prod");
    assert!(!err.close_form && err.audit.is_none());
    assert_eq!(err.message, Some("Error: disk".to_string()));
    let t = test_outcome(TestStage::Tested(Ok(())), "Prod");
    assert_eq!(t.message, Some("Connection test passed.".to_string()));
    assert_eq!(t.audit, Some((BridgeAudit::Test, "Test passed for 'Prod'".to_string())));
    assert_eq!(
        test_outcome(TestStage::ConfigError("bad key".to_string()), "Prod").message,
        Some("Config error: bad key".to_string())
    );
    assert_eq!(
        test_outcome(TestStage::ConnectFailed("refused".to_string()), "Prod").message,
        Some("Connect failed: refused".to_string())
    );
    assert_eq!(
        test_outcome(TestStage::Tested(Err("timeout".to_string())), "Prod").message,
        Some("Test failed: timeout".to_string())
    );
}

use bms_store_gui::components::cloud_settings::{
    bridge_status_columns, last_publish_text, state_badge_class, BridgeInfo,
};

#[test]
fn bridge_status_rows() {
    let bridges = vec![
        BridgeInfo { id: "b1".to_string(), name: "Plant AWS".to_string(), provider: "aws_iot_core".to_string() },
        BridgeInfo { id: "b2".to_string(), name: "Azure".to_string(), provider: "azure_iot_hub".to_string() },
    ];
    assert_eq!(bridge_status_columns(&bridges, &"b2".to_string()), ("Azure".to_string(), "azure_iot_hub".to_string()));
    assert_eq!(bridge_status_columns(&bridges, &"gone".to_string()), ("gone".to_string(), String::new()));
    assert_eq!(state_badge_class("idle"), "badge badge-green");
    assert_eq!(state_badge_class("publishing"), "badge badge-blue");
    assert_eq!(state_badge_class("error"), "badge badge-red");
    assert_eq!(state_badge_class("disconnected"), "badge");
    assert_eq!(last_publish_text(0), "Never");
    assert!(last_publish_text(1000).ends_with("d ago"));
}
