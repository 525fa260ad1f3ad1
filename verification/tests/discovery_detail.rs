use bms_store_gui::components::alarm_view::PointKind;
use bms_store_gui::components::discovery_detail::{
    accepted_with_prefix, bulk_label, device_properties, no_points_text, point_row_class, point_update,
    select_points, state_label_keys, text_or_dash, toggle_selected, DeviceProperty, DeviceState, PropertyValue,
};
use bms_store_gui::json::JsonValue;

fn s(t: &str) -> String {
    t.to_string()
}

fn text_prop(label: &str, value: &str) -> DeviceProperty {
    DeviceProperty { label: s(label), value: PropertyValue::Text(s(value)) }
}

#[test]
fn management_tabs_need_an_accepted_device_of_the_protocol() {
    assert!(accepted_with_prefix(DeviceState::Accepted, "bacnet-1001", "bacnet-"));
    assert!(!accepted_with_prefix(DeviceState::Discovered, "bacnet-1001", "bacnet-"));
    assert!(!accepted_with_prefix(DeviceState::Accepted, "modbus-7", "bacnet-"));
    assert!(accepted_with_prefix(DeviceState::Accepted, "modbus-7", "modbus-"));
    assert!(!accepted_with_prefix(DeviceState::Accepted, "bac", "bacnet-"));
}

#[test]
fn bacnet_properties_list_what_the_metadata_holds() {
    let meta = JsonValue::Object(vec![
        (s("description"), JsonValue::Str(s("AHU controller"))),
        (s("max_apdu"), JsonValue::Number(s("1476"))),
        (s("segmentation"), JsonValue::Number(s("3"))),
        (s("location"), JsonValue::Str(s("Roof"))),
        (s("protocol_version"), JsonValue::Number(s("1"))),
        (s("app_software_version"), JsonValue::Str(s("2.4.1"))),
    ]);
    let rows = device_properties("bacnet", &meta, "net-a");
    assert_eq!(
        rows,
        vec![
            text_prop("Network", "net-a"),
            text_prop("Location", "Roof"),
            text_prop("Description", "AHU controller"),
            text_prop("Max APDU", "1476"),
            DeviceProperty { label: s("Segmentation"), value: PropertyValue::Segmentation(3) },
            text_prop("Protocol Version", "1"),
            text_prop("Software Version", "2.4.1"),
        ]
    );
}

#[test]
fn properties_skip_missing_or_mistyped_entries() {
    let meta = JsonValue::Object(vec![
        (s("location"), JsonValue::Number(s("5"))),
        (s("max_apdu"), JsonValue::Str(s("big"))),
    ]);
    assert!(device_properties("bacnet", &meta, "").is_empty());
    assert_eq!(device_properties("bacnet", &JsonValue::Null, "n1"), vec![text_prop("Network", "n1")]);
    assert!(device_properties("modbus", &meta, "n1").is_empty());
}

#[test]
fn saving_a_point_sends_filled_fields_and_labels() {
    let labels = vec![(s("true"), s("On")), (s("false"), String::new())];
    let u = point_update(s("Zone Temp"), String::new(), s("desc"), PointKind::Binary, labels);
    assert_eq!(u.name, Some(s("Zone Temp")));
    assert_eq!(u.units, None);
    assert_eq!(u.description, Some(s("desc")));
    assert_eq!(u.state_labels, Some(Some(vec![(s("true"), s("On"))])));

    let blank = vec![(s("1"), String::new())];
    let u = point_update(String::new(), s("degF"), String::new(), PointKind::Multistate, blank);
    assert_eq!(u.name, None);
    assert_eq!(u.units, Some(s("degF")));
    assert_eq!(u.state_labels, Some(None));

    let u = point_update(s("x"), s("y"), s("z"), PointKind::Analog, vec![(s("1"), s("Low"))]);
    assert_eq!(u.state_labels, None);
}

#[test]
fn state_label_keys_sort_by_number_with_words_last() {
    let keys = vec![s("10"), s("high"), s("2"), s("1"), s("+3"), s("low")];
    assert_eq!(state_label_keys(&keys), vec![s("1"), s("2"), s("+3"), s("10"), s("high"), s("low")]);
    assert_eq!(state_label_keys(&Vec::new()), vec![s("1"), s("2"), s("3")]);
    assert_eq!(state_label_keys(&vec![s("b"), s("a")]), vec![s("b"), s("a")]);
}

#[test]
fn kind_buttons_select_point_ids() {
    let pts = vec![
        (s("p1"), PointKind::Analog),
        (s("p2"), PointKind::Binary),
        (s("p3"), PointKind::Analog),
        (s("p4"), PointKind::Multistate),
    ];
    assert_eq!(select_points(&pts, None), vec![s("p1"), s("p2"), s("p3"), s("p4")]);
    assert_eq!(select_points(&pts, Some(PointKind::Analog)), vec![s("p1"), s("p3")]);
    assert_eq!(select_points(&pts, Some(PointKind::Binary)), vec![s("p2")]);
}

#[test]
fn ticking_a_point_twice_restores_the_selection() {
    let mut sel = vec![s("a"), s("b")];
    toggle_selected(&mut sel, "c");
    assert_eq!(sel, vec![s("a"), s("b"), s("c")]);
    toggle_selected(&mut sel, "a");
    assert_eq!(sel, vec![s("b"), s("c")]);
    toggle_selected(&mut sel, "a");
    toggle_selected(&mut sel, "a");
    assert_eq!(sel, vec![s("b"), s("c")]);
}

#[test]
fn point_table_labels() {
    assert_eq!(point_row_class(true, true), "discovery-point-row selected");
    assert_eq!(point_row_class(false, true), "discovery-point-row checked");
    assert_eq!(point_row_class(false, false), "discovery-point-row");
    assert_eq!(bulk_label(3, 10), "3 selected");
    assert_eq!(bulk_label(0, 12), "Points (12)");
    assert_eq!(text_or_dash(&Some(s("degF"))), "degF");
    assert_eq!(text_or_dash(&None), "—");
    assert_eq!(no_points_text("modbus"), "No registers probed yet.");
    assert_eq!(no_points_text("bacnet"), "No points discovered for this device.");
}
