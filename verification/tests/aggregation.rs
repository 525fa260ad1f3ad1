use bms_store_gui::aggregation::alarm_aggregator::{AggregatedAlarmStore, SiteAlarmSource};
use bms_store_gui::aggregation::energy_aggregator::{AggregatedEnergyStore, SiteEnergySource};
use bms_store_gui::aggregation::types::AggregatorError;

#[derive(Debug, Clone, PartialEq)]
struct Alarm {
    device_id: String,
    trigger_value: f64,
}

fn mk_alarm(device: &str) -> Alarm {
    Alarm { device_id: device.to_string(), trigger_value: 42.0 }
}

fn src(id: &str, name: &str) -> SiteAlarmSource<()> {
    SiteAlarmSource { site_id: id.to_string(), site_name: name.to_string(), store: () }
}

#[test]
fn alarm_aggregator_aggregate_merges_successful_sites() {
    let agg = AggregatedAlarmStore::new(vec![src("a", "Site A"), src("b", "Site B")]);
    let result = agg.merge_results(vec![
        Ok(vec![mk_alarm("dev-a1"), mk_alarm("dev-a2")]),
        Ok(vec![mk_alarm("dev-b1")]),
    ]);
    assert_eq!(result.rows.len(), 3);
    assert!(result.site_errors.is_empty());
    assert_eq!(result.rows[2].site_id, "b");
    assert_eq!(result.rows[2].row.device_id, "dev-b1");
}

#[test]
fn alarm_aggregator_aggregate_skips_failing_source() {
    let agg = AggregatedAlarmStore::new(vec![src("a", "Site A"), src("b", "Site B"), src("c", "Site C")]);
    let result = agg.merge_results(vec![
        Ok(vec![mk_alarm("dev-a1")]),
        Err(AggregatorError::Unreachable("stub".to_string())),
        Ok(vec![mk_alarm("dev-c1")]),
    ]);
    assert_eq!(result.rows.len(), 2);
    assert_eq!(result.site_errors.len(), 1);
    assert_eq!(result.site_errors[0].site_id, "b");
    assert_eq!(result.site_errors[0].error, "site unreachable: stub");
    assert_eq!(result.rows[1].site_name, "Site C");
}

#[test]
fn history_aggregate_skips_failing_source() {
    let agg = AggregatedAlarmStore::new(vec![src("a", "Site A"), src("b", "Site B")]);
    let result = agg.merge_results::<Alarm>(vec![
        Err(AggregatorError::Unreachable("stub".to_string())),
        Ok(vec![]),
    ]);
    assert!(result.rows.is_empty());
    assert_eq!(result.site_errors.len(), 1);
}

#[test]
fn site_count_counts_sources() {
    let agg = AggregatedAlarmStore::new(vec![src("a", "A"), src("b", "B")]);
    assert_eq!(agg.site_count(), 2);
    assert_eq!(agg.sources()[1].site_id, "b");
    let energy = AggregatedEnergyStore::new(vec![SiteEnergySource {
        site_id: "x".to_string(),
        site_name: "X".to_string(),
        store: (),
    }]);
    assert_eq!(energy.site_count(), 1);
}

#[test]
fn query_error_text() {
    assert_eq!(AggregatorError::Query("bad sql".to_string()).to_display_string(), "query failed: bad sql");
}

fn esrc(id: &str) -> SiteEnergySource<()> {
    SiteEnergySource { site_id: id.to_string(), site_name: format!("Site {id}"), store: () }
}

#[test]
fn energy_aggregator_aggregate_merges_successful_sites() {
    let agg = AggregatedEnergyStore::new(vec![esrc("a"), esrc("b")]);
    let result = agg.merge_results(vec![Ok(100.0f64), Ok(50.0f64)]);
    assert_eq!(result.kpis.len(), 2);
    assert!(result.site_errors.is_empty());
    assert_eq!(result.kpis[0], 100.0);
}

#[test]
fn energy_aggregator_aggregate_skips_failing_source() {
    let agg = AggregatedEnergyStore::new(vec![esrc("a"), esrc("b")]);
    let result = agg.merge_results(vec![Ok(1u32), Err(AggregatorError::Unreachable("stub".to_string()))]);
    assert_eq!(result.kpis.len(), 1);
    assert_eq!(result.site_errors.len(), 1);
    assert_eq!(result.site_errors[0].site_id, "b");
    assert_eq!(result.site_errors[0].site_name, "Site b");
}

#[test]
fn every_energy_site_yields_a_kpi_or_an_error() {
    let agg = AggregatedEnergyStore::new(vec![esrc("a"), esrc("b"), esrc("c"), esrc("d")]);
    let result = agg.merge_results(vec![
        Err(AggregatorError::Unreachable("down".to_string())),
        Ok(2u32),
        Err(AggregatorError::Unreachable("down".to_string())),
        Ok(4u32),
    ]);
    assert_eq!(agg.site_count(), 4);
    assert_eq!(result.kpis.len() + result.site_errors.len(), agg.site_count());
    assert_eq!(result.kpis, vec![2, 4]);
    assert_eq!(result.site_errors[0].site_id, "a");
    assert_eq!(result.site_errors[1].site_id, "c");
}
