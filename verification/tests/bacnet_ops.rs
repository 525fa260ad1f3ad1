use bms_store_gui::components::bacnet_ops::{
    ack_label, create_object_type, delete_object_request, deleted_text, trend_log_name,
};
use rustbac_core::types::ObjectType;

#[test]
fn commissioning_creates_the_offered_object_types() {
    assert_eq!(create_object_type("AnalogValue"), Some(ObjectType::AnalogValue));
    assert_eq!(create_object_type("BinaryValue"), Some(ObjectType::BinaryValue));
    assert_eq!(create_object_type("MultiStateValue"), Some(ObjectType::MultiStateValue));
    assert_eq!(create_object_type("AnalogInput"), Some(ObjectType::AnalogInput));
    assert_eq!(create_object_type("AnalogOutput"), Some(ObjectType::AnalogOutput));
    assert_eq!(create_object_type("Schedule"), None);
}

#[test]
fn delete_requests_read_the_instance() {
    let (id, label) = delete_object_request("7", "BinaryValue").unwrap().unwrap();
    assert_eq!(id.object_type, ObjectType::BinaryValue);
    assert_eq!(id.instance, 7);
    assert_eq!(label, "BinaryValue-7");
    assert_eq!(deleted_text(&label), "Deleted BinaryValue-7");
    assert_eq!(delete_object_request("seven", "BinaryValue").unwrap_err(), "Invalid instance");
    assert!(delete_object_request("3", "Calendar").unwrap().is_none());
}

#[test]
fn event_and_trend_log_labels() {
    assert_eq!(ack_label(&Some(vec![0, 1])), "Unacked");
    assert_eq!(ack_label(&Some(vec![])), "Unacked");
    assert_eq!(ack_label(&Some(vec![5])), "Acked");
    assert_eq!(ack_label(&None), "Unknown");
    assert_eq!(trend_log_name(&Some("Zone Temp Log".to_string()), 3), "Zone Temp Log");
    assert_eq!(trend_log_name(&None, 12), "TrendLog-12");
}
