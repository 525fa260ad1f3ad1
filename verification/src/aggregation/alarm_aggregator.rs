//! Fan-in of alarm query results from every loaded site.
//!
//! The per-site queries themselves run outside the library; what is decided
//! here is how their answers are merged: rows of every successful site, each
//! annotated with its site, in site order, and one error record for each
//! site that failed.

use vstd::prelude::*;

use crate::aggregation::types::{aggregator_error_text, merged_errors, merged_rows, AggregatorError};

verus! {

/// One per-site alarm store paired with its identity for display/routing.
#[derive(Clone)]
pub struct SiteAlarmSource<S> {
    pub site_id: String,
    pub site_name: String,
    pub store: S,
}

/// A row of one site annotated with its site of origin.
#[derive(Clone, Debug)]
pub struct SiteScopedRow<T> {
    pub site_id: String,
    pub site_name: String,
    pub row: T,
}

/// Per-site failure record returned alongside successful aggregation rows.
#[derive(Clone, Debug)]
pub struct SiteAggregationError {
    pub site_id: String,
    pub site_name: String,
    pub error: String,
}

/// Result of a fan-out: rows from successful sites and per-site errors for
/// failing sites.
#[derive(Clone, Debug)]
pub struct AggregatedRows<T> {
    pub rows: Vec<SiteScopedRow<T>>,
    pub site_errors: Vec<SiteAggregationError>,
}

/// Aggregates alarm queries across all loaded sites.
#[derive(Clone)]
pub struct AggregatedAlarmStore<S> {
    sources: Vec<SiteAlarmSource<S>>,
}

/// The rows of an aggregation as plain values.
pub open spec fn rows_view<T>(rows: Seq<SiteScopedRow<T>>) -> Seq<(Seq<char>, Seq<char>, T)> {
    rows.map_values(|r: SiteScopedRow<T>| (r.site_id@, r.site_name@, r.row))
}

/// The error records of an aggregation as plain values.
pub open spec fn errors_view(errs: Seq<SiteAggregationError>) -> Seq<(Seq<char>, Seq<char>, Seq<char>)> {
    errs.map_values(|e: SiteAggregationError| (e.site_id@, e.site_name@, e.error@))
}

/// Ids and names of alarm sources, in order.
pub open spec fn alarm_source_ids<S>(sources: Seq<SiteAlarmSource<S>>) -> Seq<(Seq<char>, Seq<char>)> {
    sources.map_values(|x: SiteAlarmSource<S>| (x.site_id@, x.site_name@))
}

impl<S> AggregatedAlarmStore<S> {
    /// The sources, in the order they were given.
    pub closed spec fn spec_sources(&self) -> Seq<SiteAlarmSource<S>> {
        self.sources@
    }

    pub fn new(sources: Vec<SiteAlarmSource<S>>) -> (r: Self)
        ensures
            r.spec_sources() == sources@,
    {
        Self { sources }
    }

    /// Number of loaded sites contributing to the aggregation.
    pub fn site_count(&self) -> (r: usize)
        ensures
            r == self.spec_sources().len(),
    {
        self.sources.len()
    }

    /// The sources, to run the per-site queries on.
    pub fn sources(&self) -> (r: &Vec<SiteAlarmSource<S>>)
        ensures
            r@ == self.spec_sources(),
    {
        &self.sources
    }

    /// Merges the per-site answers (`results[i]` is the answer of the
    /// `i`-th source): a failing site is recorded in `site_errors` and
    /// skipped, so successful sites still produce rows.
    pub fn merge_results<T>(&self, results: Vec<Result<Vec<T>, AggregatorError>>) -> (r: AggregatedRows<T>)
        requires
            results.len() == self.spec_sources().len(),
        ensures
            rows_view(r.rows@) == merged_rows(alarm_source_ids(self.spec_sources()), results@),
            errors_view(r.site_errors@) == merged_errors(alarm_source_ids(self.spec_sources()), results@),
    {
        let ghost all = results@;
        let mut rows: Vec<SiteScopedRow<T>> = Vec::new();
        let mut site_errors: Vec<SiteAggregationError> = Vec::new();
        let n = self.sources.len();
        let mut i: usize = 0;
        for result in it: results.into_iter()
            invariant
                i == it.index(),
                i <= all.len(),
                all.len() == n,
                it.seq() == all,
                all.len() == self.sources@.len(),
                rows_view(rows@) == merged_rows(alarm_source_ids(self.sources@).take(i as int), all.take(i as int)),
                errors_view(site_errors@) == merged_errors(alarm_source_ids(self.sources@).take(i as int), all.take(i as int)),
        {
            let src = &self.sources[i];
            proof {
                assert(alarm_source_ids(self.sources@).take(i + 1).drop_last() =~= alarm_source_ids(self.sources@).take(i as int));
                assert(all.take(i + 1).drop_last() =~= all.take(i as int));
            }
            match result {
                Ok(items) => {
                    let ghost before = rows@;
                    let ghost items_v = items@;
                    let m = items.len();
                    let mut k: usize = 0;
                    for item in jt: items.into_iter()
                        invariant
                            k == jt.index(),
                            k <= items_v.len(),
                            items_v.len() == m,
                            jt.seq() == items_v,
                            rows@.len() == before.len() + k,
                            rows_view(rows@) == rows_view(before) + items_v.take(k as int).map_values(
                                |t: T| (src.site_id@, src.site_name@, t),
                            ),
                    {
                        let ghost prev = rows@;
                        rows.push(SiteScopedRow {
                            site_id: src.site_id.clone(),
                            site_name: src.site_name.clone(),
                            row: item,
                        });
                        proof {
                            assert(items_v.take(k + 1) =~= items_v.take(k as int).push(items_v[k as int]));
                            assert(rows_view(rows@) =~= rows_view(prev).push(
                                (src.site_id@, src.site_name@, items_v[k as int]),
                            ));
                            assert(rows_view(rows@) =~= rows_view(before) + items_v.take(k + 1).map_values(
                                |t: T| (src.site_id@, src.site_name@, t),
                            ));
                        }
                        k = k + 1;
                    }
                    proof {
                        assert(items_v.take(k as int) =~= items_v);
                    }
                },
                Err(e) => {
                    let ghost before = site_errors@;
                    site_errors.push(SiteAggregationError {
                        site_id: src.site_id.clone(),
                        site_name: src.site_name.clone(),
                        error: e.to_display_string(),
                    });
                    proof {
                        assert(errors_view(site_errors@) =~= errors_view(before).push(
                            (src.site_id@, src.site_name@, aggregator_error_text(e)),
                        ));
                    }
                },
            }
            i = i + 1;
        }
        proof {
            assert(alarm_source_ids(self.sources@).take(i as int) =~= alarm_source_ids(self.sources@));
            assert(all.take(i as int) =~= all);
        }
        AggregatedRows { rows, site_errors }
    }
}

} // verus!
