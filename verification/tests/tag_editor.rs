use bms_store_gui::components::coverage_view::Severity;
use bms_store_gui::components::tag_editor::{
    entered_value, entity_badge, name_changed, pick_tag, sorted_tags, synced_name, tag_options, validation_banners,
    TagDef, TagPick, ValidationIssue,
};

fn s(t: &str) -> String {
    t.to_string()
}

fn issue(sev: Severity, msg: &str, tags: &[&str], fix: Option<&str>) -> ValidationIssue {
    ValidationIssue {
        severity: sev,
        message: s(msg),
        tags_involved: tags.iter().map(|t| s(t)).collect(),
        suggested_fix: fix.map(s),
    }
}

fn def(name: &str, doc: &str, marker: bool) -> TagDef {
    TagDef { name: s(name), doc: s(doc), marker }
}

#[test]
fn badges() {
    assert_eq!(entity_badge("equip"), "E");
    assert_eq!(entity_badge("point"), "P");
    assert_eq!(entity_badge("site"), "S");
    assert_eq!(entity_badge("space"), "Sp");
    assert_eq!(entity_badge("floor"), "?");
}

#[test]
fn applied_tags_are_sorted_by_name() {
    let tags = vec![(s("temp"), None), (s("unit"), Some(s("°F"))), (s("air"), None), (s("point"), None)];
    let names: Vec<String> = sorted_tags(&tags).into_iter().map(|t| t.0).collect();
    assert_eq!(names, vec![s("air"), s("point"), s("temp"), s("unit")]);
    assert!(sorted_tags(&Vec::new()).is_empty());
}

#[test]
fn banners_put_errors_first() {
    let issues = vec![
        issue(Severity::Info, "Consider adding a unit", &[], None),
        issue(Severity::Error, "Conflicting tags", &["air", "water"], Some("remove water")),
        issue(Severity::Warning, "Missing kind", &["kind"], None),
        issue(Severity::Error, "Missing point", &[], None),
    ];
    let b = validation_banners(&issues);
    assert_eq!(b.len(), 4);
    assert_eq!(b[0].message, "Conflicting tags");
    assert_eq!(b[0].class, "validation-banner validation-error");
    assert_eq!(b[0].icon, "!");
    assert_eq!(b[0].tags_text.as_deref(), Some("Tags: air, water"));
    assert_eq!(b[0].fix_text.as_deref(), Some("Fix: remove water"));
    assert_eq!(b[1].message, "Missing point");
    assert_eq!(b[1].tags_text, None);
    assert_eq!(b[2].class, "validation-banner validation-warning");
    assert_eq!(b[2].tags_text.as_deref(), Some("Tags: kind"));
    assert_eq!(b[3].class, "validation-banner validation-info");
    assert_eq!(b[3].icon, "i");
}

#[test]
fn dropdown_offers_missing_tags_matching_the_search() {
    let catalog = vec![
        def("air", "Air medium", true),
        def("temp", "Temperature", true),
        def("unit", "Unit of measure", false),
        def("water", "Water medium", true),
    ];
    let current = vec![s("air")];
    assert_eq!(tag_options(&catalog, &current, ""), vec![1, 2, 3]);
    assert_eq!(tag_options(&catalog, &current, "MEDIUM"), vec![3]);
    assert_eq!(tag_options(&catalog, &current, "tem"), vec![1]);
    assert_eq!(tag_options(&catalog, &current, "te"), vec![1, 3]);
    let many: Vec<TagDef> = (0..30).map(|i| def(&format!("tag{i}"), "", true)).collect();
    assert_eq!(tag_options(&many, &Vec::new(), "tag").len(), 20);
}

#[test]
fn picking_and_entering_values() {
    assert_eq!(pick_tag(&def("air", "", true)), TagPick::SetMarker(s("air")));
    assert_eq!(pick_tag(&def("unit", "", false)), TagPick::AskValue(s("unit")));
    assert_eq!(entered_value(&s("")), None);
    assert_eq!(entered_value(&s("°C")), Some(s("°C")));
}

#[test]
fn name_field_follows_the_selection() {
    assert_eq!(synced_name(&s(""), &s("AHU 1"), &s("e1"), &s("e1")), "AHU 1");
    assert_eq!(synced_name(&s("AHU One"), &s("AHU 1"), &s("e1"), &s("e1")), "AHU One");
    assert_eq!(synced_name(&s("AHU One"), &s("VAV 2"), &s("e2"), &s("e1")), "VAV 2");
    assert!(name_changed(&s("AHU One"), &s("AHU 1")));
    assert!(!name_changed(&s("AHU 1"), &s("AHU 1")));
}

use bms_store_gui::components::tag_editor::{editor_pane, entity_kind_of, EditorPane};

#[test]
fn selected_ids_and_panes() {
    assert_eq!(entity_kind_of("bacnet-100/ai-1"), "point");
    assert_eq!(entity_kind_of("bacnet-100"), "equip");
    assert_eq!(editor_pane(false, false), EditorPane::NothingSelected);
    assert_eq!(editor_pane(true, true), EditorPane::Editor);
    assert_eq!(editor_pane(true, false), EditorPane::CreatePrompt);
}
