use bms_store_gui::components::refs_editor::{
    bulk_writes, entity_ref_write, equip_ref_tags, filter_targets, group_incoming, outgoing_refs, ref_targets,
    ref_write, set_mark, set_marks, target_label, ticked_count, IncomingRef,
};

fn s(t: &str) -> String {
    t.to_string()
}

fn pair(a: &str, b: &str) -> (String, String) {
    (s(a), s(b))
}

#[test]
fn equipment_ref_tags() {
    let tags = equip_ref_tags();
    assert_eq!(tags.len(), 11);
    assert_eq!(tags[0], "equipRef");
    assert_eq!(tags[1], "ahuRef");
    assert_eq!(tags[10], "networkRef");
}

#[test]
fn spatial_refs_are_not_listed() {
    let refs = vec![pair("siteRef", "s1"), pair("ahuRef", "ahu-1"), pair("spaceRef", "r1"), pair("meterRef", "m1")];
    assert_eq!(outgoing_refs(&refs), vec![pair("ahuRef", "ahu-1"), pair("meterRef", "m1")]);
}

#[test]
fn targets_exclude_the_node_and_use_labels() {
    let equips = vec![pair("ahu-1", "AHU 1"), pair("vav-1", ""), pair("self", "Me")];
    let ts = ref_targets(&equips, &s("self"));
    assert_eq!(ts, vec![pair("ahu-1", "AHU 1"), pair("vav-1", "vav-1")]);
    assert_eq!(target_label(&ts, &s("ahu-1")), "AHU 1");
    assert_eq!(target_label(&ts, &s("gone")), "gone");
    assert_eq!(filter_targets(&ts, "ahu"), vec![pair("ahu-1", "AHU 1")]);
    assert_eq!(filter_targets(&ts, ""), ts);
    assert!(filter_targets(&ts, "chiller").is_empty());
}

#[test]
fn incoming_refs_are_grouped_by_tag() {
    let inc = vec![
        IncomingRef { tag: s("ahuRef"), id: s("vav-1"), dis: s("VAV 1") },
        IncomingRef { tag: s("equipRef"), id: s("p1"), dis: String::new() },
        IncomingRef { tag: s("ahuRef"), id: s("vav-2"), dis: s("VAV 2") },
    ];
    let groups = group_incoming(&inc);
    assert_eq!(groups.len(), 2);
    assert_eq!(groups[0].tag, "ahuRef");
    assert_eq!(groups[0].names, vec![s("VAV 1"), s("VAV 2")]);
    assert_eq!(groups[1].tag, "equipRef");
    assert_eq!(groups[1].names, vec![s("p1")]);
    assert!(group_incoming(&Vec::new()).is_empty());
}

#[test]
fn ref_direction_and_typed_targets() {
    let w = ref_write(true, &s("ahu-1"), &s("systemRef"), &s("sys"));
    assert_eq!((w.subject.as_str(), w.tag.as_str(), w.target.as_str()), ("ahu-1", "systemRef", "sys"));
    let w = ref_write(false, &s("ahu-1"), &s("ahuRef"), &s("vav-9"));
    assert_eq!((w.subject.as_str(), w.tag.as_str(), w.target.as_str()), ("vav-9", "ahuRef", "ahu-1"));
    assert!(entity_ref_write(&s("e1"), &s("siteRef"), "   ").is_none());
    let w = entity_ref_write(&s("e1"), &s("siteRef"), "  site-1 ").unwrap();
    assert_eq!((w.subject.as_str(), w.tag.as_str(), w.target.as_str()), ("e1", "siteRef", "site-1"));
}

#[test]
fn bulk_assignment_writes_ticked_ids() {
    let mut marks: Vec<(String, bool)> = Vec::new();
    set_marks(&mut marks, &vec![s("vav-1"), s("vav-2"), s("vav-3")], true);
    assert_eq!(ticked_count(&marks), 3);
    set_mark(&mut marks, &s("vav-2"), false);
    assert_eq!(ticked_count(&marks), 2);
    let writes = bulk_writes(&marks, &s("ahuRef"), &s("ahu-1"));
    let subjects: Vec<&str> = writes.iter().map(|w| w.subject.as_str()).collect();
    assert_eq!(subjects, vec!["vav-1", "vav-3"]);
    assert!(writes.iter().all(|w| w.tag == "ahuRef" && w.target == "ahu-1"));
    set_marks(&mut marks, &vec![s("vav-1"), s("vav-3")], false);
    assert_eq!(ticked_count(&marks), 0);
    assert!(bulk_writes(&marks, &s("ahuRef"), &s("ahu-1")).is_empty());
}
