use bms_store_gui::components::auto_tag_preview::{
    chip_label, confidence_class, preview_pane, source_badge, PreviewPane, TagSource,
};

#[test]
fn badges_and_confidence_classes() {
    assert_eq!(source_badge(TagSource::Atlas), ("atlas", "src-atlas"));
    assert_eq!(source_badge(TagSource::Heuristic), ("heuristic", "src-heuristic"));
    assert_eq!(confidence_class(80), "conf-high");
    assert_eq!(confidence_class(79), "conf-mid");
    assert_eq!(confidence_class(50), "conf-mid");
    assert_eq!(confidence_class(49), "conf-low");
}

#[test]
fn chips_and_panes() {
    assert_eq!(chip_label("unit", &Some("°F".to_string())), "unit: °F");
    assert_eq!(chip_label("unit", &Some(String::new())), "unit");
    assert_eq!(chip_label("sensor", &None), "sensor");
    assert_eq!(preview_pane(&None), PreviewPane::Loading);
    assert_eq!(preview_pane(&Some(Ok(()))), PreviewPane::Ready);
    assert_eq!(preview_pane(&Some(Err("no device".to_string()))), PreviewPane::Failed("Preview failed: no device".to_string()));
}
