use bms_store_gui::components::equipment_browser::{
    click_device_check, device_check_state, empty_list_text, filter_equipment, filter_points, point_display_name,
    point_units, CheckState,
};

fn s(t: &str) -> String {
    t.to_string()
}

fn node(id: &str, dis: &str) -> (String, String) {
    (s(id), s(dis))
}

#[test]
fn search_lists_equipment_by_id_or_name_ignoring_case() {
    let nodes = vec![node("ahu-1", "Air Handler"), node("vav-2", "VAV Box"), node("chiller", "")];
    assert_eq!(filter_equipment(&nodes, ""), nodes);
    assert_eq!(filter_equipment(&nodes, "AHU"), vec![node("ahu-1", "Air Handler")]);
    assert_eq!(filter_equipment(&nodes, "box"), vec![node("vav-2", "VAV Box")]);
    assert!(filter_equipment(&nodes, "pump").is_empty());
}

#[test]
fn search_lists_every_point_of_matching_equipment() {
    let points = vec![node("ahu-1/zat", "Zone Temp"), node("ahu-1/sp", "Setpoint")];
    let dev = s("ahu-1");
    assert_eq!(filter_points(&points, &dev, "ahu"), points);
    assert_eq!(filter_points(&points, &dev, "zone"), vec![node("ahu-1/zat", "Zone Temp")]);
    assert_eq!(filter_points(&points, &dev, ""), points);
    assert!(filter_points(&points, &dev, "fan").is_empty());
}

#[test]
fn empty_list_messages() {
    assert_eq!(empty_list_text(0, "x"), Some("No matches"));
    assert_eq!(empty_list_text(0, ""), Some("No equipment found. Accept devices in Discovery first."));
    assert_eq!(empty_list_text(2, ""), None);
}

#[test]
fn point_names_and_units() {
    assert_eq!(point_display_name("ahu-1/zone/temp", ""), "temp");
    assert_eq!(point_display_name("plain", ""), "plain");
    assert_eq!(point_display_name("ahu-1/", ""), "");
    assert_eq!(point_display_name("ahu-1/zat", "Zone Temp"), "Zone Temp");
    assert_eq!(point_units(&Some(s("degF")), &Some(Some(s("degC")))), "degF");
    assert_eq!(point_units(&None, &Some(Some(s("degC")))), "degC");
    assert_eq!(point_units(&None, &Some(None)), "");
    assert_eq!(point_units(&None, &None), "");
}

#[test]
fn check_box_states() {
    let points = vec![s("d/p1"), s("d/p2")];
    let dev = s("d");
    assert_eq!(device_check_state(&vec![s("d"), s("d/p1"), s("d/p2")], &dev, &points), CheckState::All);
    assert_eq!(device_check_state(&vec![s("d"), s("d/p1")], &dev, &points), CheckState::Partial);
    assert_eq!(device_check_state(&vec![s("d/p1"), s("d/p2")], &dev, &points), CheckState::Unchecked);
    assert_eq!(device_check_state(&vec![s("d")], &dev, &Vec::new()), CheckState::Partial);
}

#[test]
fn three_clicks_cycle_the_check_box() {
    let points = vec![s("d/p1"), s("d/p2")];
    let dev = s("d");
    let mut sel = vec![s("other"), s("d/p1")];
    click_device_check(&mut sel, &dev, &points);
    assert_eq!(device_check_state(&sel, &dev, &points), CheckState::All);
    let mut sorted = sel.clone();
    sorted.sort();
    assert_eq!(sorted, vec![s("d"), s("d/p1"), s("d/p2"), s("other")]);
    click_device_check(&mut sel, &dev, &points);
    assert_eq!(device_check_state(&sel, &dev, &points), CheckState::Partial);
    let mut sorted = sel.clone();
    sorted.sort();
    assert_eq!(sorted, vec![s("d"), s("other")]);
    click_device_check(&mut sel, &dev, &points);
    assert_eq!(device_check_state(&sel, &dev, &points), CheckState::Unchecked);
    assert_eq!(sel, vec![s("other")]);
}
