use bms_store_gui::components::config_view::{
    auto_tag_point_ids, batch_prototype_preview, batch_summary, common_tags, display_name_or, equip_tag_list,
    merge_issues, merged_tags, prototype_preview, ChangeKind, PreviewEntity, TaggedEntity,
};
use bms_store_gui::components::coverage_view::{
    coverage_headline, coverage_stats, entity_row, equip_breakdown, sort_rows_by_score, toggle_filter, untagged_ids,
    visible_rows, CoverageEntity, CoverageScore, EntityRow, Severity, TagIssue,
};

fn issue(severity: Severity, message: &str) -> TagIssue {
    TagIssue { severity, message: message.to_string() }
}

fn row(id: &str, entity_type: &str, score: CoverageScore) -> EntityRow {
    EntityRow {
        id: id.to_string(),
        dis: id.to_string(),
        entity_type: entity_type.to_string(),
        score,
        top_issue: None,
    }
}

#[test]
fn entity_rows_name_score_and_first_problem() {
    let e = CoverageEntity {
        id: "ahu-1".to_string(),
        dis: String::new(),
        entity_type: "equip".to_string(),
        tags: vec!["equip".to_string(), "air".to_string()],
        issues: vec![
            issue(Severity::Info, "fyi"),
            issue(Severity::Warning, "missing siteRef"),
            issue(Severity::Error, "bad"),
        ],
    };
    let r = entity_row(&e);
    assert_eq!(r.dis, "ahu-1");
    assert_eq!(r.score, CoverageScore::HasWarnings);
    assert_eq!(r.top_issue, Some("missing siteRef".to_string()));
    let plain = CoverageEntity {
        id: "p".to_string(),
        dis: "Zone temp".to_string(),
        entity_type: "point".to_string(),
        tags: vec!["point".to_string(), "temp".to_string()],
        issues: vec![issue(Severity::Info, "note")],
    };
    let r = entity_row(&plain);
    assert_eq!(r.dis, "Zone temp");
    assert_eq!(r.score, CoverageScore::Full);
    assert_eq!(r.top_issue, None);
    let bare = CoverageEntity {
        id: "q".to_string(),
        dis: "Bare".to_string(),
        entity_type: "point".to_string(),
        tags: vec!["point".to_string()],
        issues: vec![issue(Severity::Error, "missing equipRef")],
    };
    let r = entity_row(&bare);
    assert_eq!(r.score, CoverageScore::Partial);
    assert_eq!(r.top_issue, Some("missing equipRef".to_string()));
}

#[test]
fn stats_count_tiers_and_average() {
    let rows = vec![
        row("a", "equip", CoverageScore::Full),
        row("b", "equip", CoverageScore::Partial),
        row("c", "point", CoverageScore::HasWarnings),
        row("d", "point", CoverageScore::Untagged),
    ];
    let s = coverage_stats(&rows);
    assert_eq!((s.total, s.full, s.warnings, s.partial, s.untagged), (4, 1, 1, 1, 1));
    assert_eq!(s.overall_pct, 56);
    assert_eq!(coverage_headline(&s), "overall coverage (1 of 4 entities fully tagged)");
    assert_eq!(coverage_stats(&vec![]).overall_pct, 0);
}

#[test]
fn rows_sorted_by_score_keep_list_order_within_a_tier() {
    let rows = vec![
        row("a", "equip", CoverageScore::Full),
        row("b", "equip", CoverageScore::Untagged),
        row("c", "point", CoverageScore::Partial),
        row("d", "point", CoverageScore::Untagged),
        row("e", "point", CoverageScore::HasWarnings),
    ];
    assert_eq!(sort_rows_by_score(&rows), vec![1, 3, 2, 4, 0]);
    assert_eq!(visible_rows(&rows, None), vec![1, 3, 2, 4, 0]);
    assert_eq!(visible_rows(&rows, Some(CoverageScore::Untagged)), vec![1, 3]);
    assert_eq!(untagged_ids(&rows), vec!["b".to_string(), "c".to_string(), "d".to_string()]);
}

#[test]
fn at_most_two_hundred_rows_are_listed() {
    let rows: Vec<EntityRow> = (0..250).map(|i| row(&format!("r{i}"), "point", CoverageScore::Full)).collect();
    let v = visible_rows(&rows, None);
    assert_eq!(v.len(), 200);
    assert_eq!(v[199], 199);
}

#[test]
fn tier_chip_toggles() {
    assert_eq!(toggle_filter(None, CoverageScore::Full), Some(CoverageScore::Full));
    assert_eq!(toggle_filter(Some(CoverageScore::Full), CoverageScore::Full), None);
    assert_eq!(toggle_filter(Some(CoverageScore::Partial), CoverageScore::Full), Some(CoverageScore::Full));
}

#[test]
fn equipment_breakdown_groups_by_id_prefix() {
    let rows = vec![
        row("vav-2", "equip", CoverageScore::Full),
        row("ahu-1", "equip", CoverageScore::Partial),
        row("vav-7", "equip", CoverageScore::Partial),
        row("ahu-1/temp", "point", CoverageScore::Full),
        row("AHU-3", "equip", CoverageScore::Full),
        row("boiler", "equip", CoverageScore::Full),
    ];
    let b = equip_breakdown(&rows);
    assert_eq!(
        b,
        vec![
            ("AHU".to_string(), 1, 2),
            ("BOILER".to_string(), 1, 1),
            ("VAV".to_string(), 1, 2),
        ]
    );
}

fn entity(kind: &str, tags: &[(&str, Option<&str>)]) -> TaggedEntity {
    TaggedEntity {
        entity_type: kind.to_string(),
        tags: tags.iter().map(|(k, v)| (k.to_string(), v.map(|s| s.to_string()))).collect(),
    }
}

#[test]
fn common_tags_are_sorted_and_from_the_first_entity() {
    let es = vec![
        entity("equip", &[("siteRef", Some("s1")), ("equip", None), ("ahu", None), ("dis", Some("A"))]),
        entity("equip", &[("ahu", None), ("equip", None), ("dis", Some("B")), ("vav", None)]),
    ];
    assert_eq!(
        common_tags(&es),
        vec![
            ("ahu".to_string(), None),
            ("dis".to_string(), Some("A".to_string())),
            ("equip".to_string(), None),
        ]
    );
    assert_eq!(common_tags(&vec![]), vec![]);
}

#[test]
fn merged_tags_take_the_first_holder() {
    let es = vec![
        entity("equip", &[("dis", Some("A")), ("equip", None)]),
        entity("point", &[("dis", Some("B")), ("point", None)]),
    ];
    assert_eq!(
        merged_tags(&es),
        vec![
            ("dis".to_string(), Some("A".to_string())),
            ("equip".to_string(), None),
            ("point".to_string(), None),
        ]
    );
}

#[test]
fn selection_summary() {
    let es = vec![
        entity("equip", &[]),
        entity("point", &[]),
        entity("point", &[]),
    ];
    let s = batch_summary(5, &es);
    assert_eq!((s.untagged, s.equip_count, s.point_count), (2, 1, 2));
    assert_eq!(s.dominant_type, "point");
    assert!(s.mixed);
    let s = batch_summary(1, &es);
    assert_eq!(s.untagged, 0);
    let none = batch_summary(0, &vec![]);
    assert_eq!(none.dominant_type, "equip");
    assert!(!none.mixed);
    let tie = batch_summary(2, &vec![entity("equip", &[]), entity("point", &[])]);
    assert_eq!(tie.dominant_type, "equip");
}

#[test]
fn point_findings_are_added_once() {
    let first = vec![issue(Severity::Error, "missing equip"), issue(Severity::Warning, "no siteRef")];
    let second = vec![
        issue(Severity::Warning, "no siteRef"),
        issue(Severity::Error, "missing point"),
        issue(Severity::Info, "missing point"),
    ];
    let merged = merge_issues(&first, &second);
    let messages: Vec<&str> = merged.iter().map(|i| i.message.as_str()).collect();
    assert_eq!(messages, vec!["missing equip", "no siteRef", "missing point"]);
    assert_eq!(merged[2].severity, Severity::Error);
}

#[test]
fn auto_tag_helpers() {
    assert_eq!(
        auto_tag_point_ids("bacnet-1/analog-input-3"),
        Some(("bacnet-1".to_string(), "analog-input-3".to_string()))
    );
    assert_eq!(auto_tag_point_ids("a/b/c"), Some(("a".to_string(), "b/c".to_string())));
    assert_eq!(auto_tag_point_ids("ahu-1"), None);
    assert_eq!(display_name_or(&Some("Supply temp".to_string()), "p1"), "Supply temp");
    assert_eq!(display_name_or(&Some(String::new()), "p1"), "p1");
    assert_eq!(display_name_or(&None, "p1"), "p1");
    let tags = equip_tag_list(&vec![
        ("ahu".to_string(), None),
        ("equip".to_string(), Some("x".to_string())),
        ("ahu".to_string(), Some("again".to_string())),
        ("dis".to_string(), Some("AHU 1".to_string())),
    ]);
    assert_eq!(
        tags,
        vec![
            ("equip".to_string(), None),
            ("ahu".to_string(), None),
            ("dis".to_string(), Some("AHU 1".to_string())),
        ]
    );
}

fn tag(name: &str, value: Option<&str>) -> (String, Option<String>) {
    (name.to_string(), value.map(|v| v.to_string()))
}

#[test]
fn prototype_preview_marks_added_and_modified_tags() {
    let current = vec![tag("point", None), tag("unit", Some("°F"))];
    let proto = vec![tag("unit", Some("°C")), tag("temp", None), tag("point", None)];
    let rows = prototype_preview("ahu-1/zat", &current, &proto);
    assert_eq!(rows.len(), 3);
    assert_eq!(rows[0].id, "ahu-1/zat/unit");
    assert_eq!(rows[0].label, "unit");
    assert_eq!(rows[0].before, "°F");
    assert_eq!(rows[0].after, "°C");
    assert_eq!(rows[0].change, ChangeKind::Modify);
    assert_eq!(rows[1].id, "ahu-1/zat/temp");
    assert_eq!(rows[1].before, "—");
    assert_eq!(rows[1].after, "(marker)");
    assert_eq!(rows[1].change, ChangeKind::Add);
    assert_eq!(rows[2].before, "(marker)");
    assert_eq!(rows[2].after, "(marker)");
    assert_eq!(rows[2].change, ChangeKind::Modify);
}

#[test]
fn prototype_preview_of_empty_prototype_is_empty() {
    let current = vec![tag("point", None)];
    assert!(prototype_preview("p", &current, &Vec::new()).is_empty());
}

#[test]
fn batch_preview_lists_entities_then_untagged_ids() {
    let es = vec![
        PreviewEntity { id: "e1".to_string(), dis: "Zone Temp".to_string(), tags: vec![tag("sensor", None)] },
        PreviewEntity { id: "e2".to_string(), dis: String::new(), tags: vec![] },
    ];
    let ids = vec!["e1".to_string(), "e3".to_string(), "e2".to_string()];
    let proto = vec![tag("sensor", None), tag("kind", Some("Number"))];
    let rows = batch_prototype_preview(&ids, &es, &proto);
    assert_eq!(rows.len(), 6);
    assert_eq!(rows[0].id, "e1/sensor");
    assert_eq!(rows[0].label, "Zone Temp / sensor");
    assert_eq!(rows[0].change, ChangeKind::Modify);
    assert_eq!(rows[1].label, "Zone Temp / kind");
    assert_eq!(rows[1].before, "—");
    assert_eq!(rows[1].after, "Number");
    assert_eq!(rows[1].change, ChangeKind::Add);
    assert_eq!(rows[2].label, "e2 / sensor");
    assert_eq!(rows[3].id, "e2/kind");
    assert_eq!(rows[4].id, "e3/sensor");
    assert_eq!(rows[4].label, "e3 / sensor (untagged)");
    assert_eq!(rows[4].before, "—");
    assert_eq!(rows[4].after, "(marker)");
    assert_eq!(rows[4].change, ChangeKind::Add);
    assert_eq!(rows[5].label, "e3 / kind (untagged)");
    assert_eq!(rows[5].after, "Number");
}
