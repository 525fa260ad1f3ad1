use bms_store_gui::components::device_tree::{
    leaf_class, leaf_label, members_shown, point_count, toggle_folded, ungrouped_devices, visible_devices,
    TreeDevice,
};

fn s(t: &str) -> String {
    t.to_string()
}

fn dev(id: &str, name: &str) -> TreeDevice {
    TreeDevice { id: s(id), name: s(name) }
}

#[test]
fn search_shows_devices_by_id_or_name() {
    let devs = vec![dev("bacnet-100", "AHU-1"), dev("bacnet-200", "Boiler"), dev("modbus-3", "")];
    assert_eq!(visible_devices(&devs, ""), vec![s("bacnet-100"), s("bacnet-200"), s("modbus-3")]);
    assert_eq!(visible_devices(&devs, "ahu"), vec![s("bacnet-100")]);
    assert_eq!(visible_devices(&devs, "BACNET"), vec![s("bacnet-100"), s("bacnet-200")]);
    assert!(visible_devices(&devs, "chiller").is_empty());
}

#[test]
fn groups_keep_shown_members_and_the_rest_is_ungrouped() {
    let visible = vec![s("a"), s("b"), s("d")];
    let members = vec![s("a"), s("c"), s("b")];
    assert_eq!(members_shown(&members, &visible), vec![s("a"), s("b")]);
    let grouped = vec![s("a"), s("b"), s("c")];
    assert_eq!(ungrouped_devices(&visible, &grouped), vec![s("d")]);
    assert!(members_shown(&vec![s("c")], &visible).is_empty());
}

#[test]
fn leaf_counts_and_labels() {
    let parents = vec![Some(s("d1")), None, Some(s("d2")), Some(s("d1"))];
    assert_eq!(point_count(&parents, &s("d1")), 2);
    assert_eq!(point_count(&parents, &s("d3")), 0);
    assert_eq!(leaf_label(&Some(s("AHU-1")), &s("d1")), "AHU-1");
    assert_eq!(leaf_label(&None, &s("d1")), "d1");
    assert_eq!(leaf_class(&Some(s("d1")), &s("d1")), "tree-node leaf selected");
    assert_eq!(leaf_class(&Some(s("d2")), &s("d1")), "tree-node leaf");
    assert_eq!(leaf_class(&None, &s("d1")), "tree-node leaf");
}

#[test]
fn folding_a_group_twice_restores_it() {
    let mut folded = vec![s("group-1")];
    toggle_folded(&mut folded, &s("group-2"));
    assert_eq!(folded, vec![s("group-1"), s("group-2")]);
    toggle_folded(&mut folded, &s("group-1"));
    assert_eq!(folded, vec![s("group-2")]);
    toggle_folded(&mut folded, &s("group-1"));
    toggle_folded(&mut folded, &s("group-1"));
    assert_eq!(folded, vec![s("group-2")]);
}
