//! Fan-in of per-site energy KPI results.
//!
//! Each site's KPIs are computed outside the library (they are sums of
//! measured floating-point values); what is decided here is how the per-site
//! answers are merged: the KPIs of every successful site in site order, and
//! one error record for each site that failed.

use vstd::prelude::*;

use crate::aggregation::types::{
    aggregator_error_text, law_one_error_per_failing_site, merged_errors, merged_values, AggregatorError,
};

verus! {

/// One per-site energy store paired with its identity.
#[derive(Clone)]
pub struct SiteEnergySource<S> {
    pub site_id: String,
    pub site_name: String,
    pub store: S,
}

/// Per-site failure record returned alongside successful KPI rows.
#[derive(Clone, Debug)]
pub struct SiteEnergyError {
    pub site_id: String,
    pub site_name: String,
    pub error: String,
}

/// KPIs of the successful sites and errors of the failing ones.
#[derive(Clone, Debug)]
pub struct AggregatedSiteKpis<K> {
    pub kpis: Vec<K>,
    pub site_errors: Vec<SiteEnergyError>,
}

/// Aggregates energy KPI queries across all loaded sites.
#[derive(Clone)]
pub struct AggregatedEnergyStore<S> {
    sources: Vec<SiteEnergySource<S>>,
}

/// The error records of an energy aggregation as plain values.
pub open spec fn energy_errors_view(errs: Seq<SiteEnergyError>) -> Seq<(Seq<char>, Seq<char>, Seq<char>)> {
    errs.map_values(|e: SiteEnergyError| (e.site_id@, e.site_name@, e.error@))
}

/// Ids and names of energy sources, in order.
pub open spec fn energy_source_ids<S>(sources: Seq<SiteEnergySource<S>>) -> Seq<(Seq<char>, Seq<char>)> {
    sources.map_values(|x: SiteEnergySource<S>| (x.site_id@, x.site_name@))
}

impl<S> AggregatedEnergyStore<S> {
    /// The sources, in the order they were given.
    pub closed spec fn spec_sources(&self) -> Seq<SiteEnergySource<S>> {
        self.sources@
    }

    pub fn new(sources: Vec<SiteEnergySource<S>>) -> (r: Self)
        ensures
            r.spec_sources() == sources@,
    {
        Self { sources }
    }

    /// Number of loaded sites contributing to the aggregation.
    pub fn site_count(&self) -> (r: usize)
        ensures
            r == self.spec_sources().len(),
    {
        self.sources.len()
    }

    /// The sources, to run the per-site KPI computations on.
    pub fn sources(&self) -> (r: &Vec<SiteEnergySource<S>>)
        ensures
            r@ == self.spec_sources(),
    {
        &self.sources
    }

    /// Merges the per-site KPI answers (`results[i]` is the answer of the
    /// `i`-th source): failing sites are recorded in `site_errors` and skipped.
    pub fn merge_results<K>(&self, results: Vec<Result<K, AggregatorError>>) -> (r: AggregatedSiteKpis<K>)
        requires
            results.len() == self.spec_sources().len(),
        ensures
            r.kpis@ == merged_values(results@),
            energy_errors_view(r.site_errors@) == merged_errors(energy_source_ids(self.spec_sources()), results@),
    {
        let ghost all = results@;
        let ghost ids = energy_source_ids(self.sources@);
        let n = self.sources.len();
        let mut kpis: Vec<K> = Vec::new();
        let mut site_errors: Vec<SiteEnergyError> = Vec::new();
        let mut i: usize = 0;
        for result in it: results.into_iter()
            invariant
                i == it.index(),
                i <= all.len(),
                all.len() == n,
                it.seq() == all,
                n == self.sources@.len(),
                ids == energy_source_ids(self.sources@),
                kpis@ == merged_values(all.take(i as int)),
                energy_errors_view(site_errors@) == merged_errors(ids.take(i as int), all.take(i as int)),
        {
            let src = &self.sources[i];
            proof {
                assert(ids.take(i + 1).drop_last() =~= ids.take(i as int));
                assert(all.take(i + 1).drop_last() =~= all.take(i as int));
            }
            match result {
                Ok(k) => {
                    kpis.push(k);
                },
                Err(e) => {
                    let ghost before = site_errors@;
                    site_errors.push(SiteEnergyError {
                        site_id: src.site_id.clone(),
                        site_name: src.site_name.clone(),
                        error: e.to_display_string(),
                    });
                    proof {
                        assert(energy_errors_view(site_errors@) =~= energy_errors_view(before).push(
                            (src.site_id@, src.site_name@, aggregator_error_text(e)),
                        ));
                    }
                },
            }
            i = i + 1;
        }
        proof {
            assert(ids.take(i as int) =~= ids);
            assert(all.take(i as int) =~= all);
        }
        AggregatedSiteKpis { kpis, site_errors }
    }
}

/// Every site of an energy aggregation yields exactly one KPI entry or
/// exactly one error record: for answers from all the store's sources, the
/// KPIs and the errors that merging gives together number the sites.
pub proof fn law_every_site_yields_kpis_or_an_error<S, K>(
    sources: Seq<SiteEnergySource<S>>,
    results: Seq<Result<K, AggregatorError>>,
)
    requires
        results.len() == sources.len(),
    ensures
        merged_values(results).len() + merged_errors(energy_source_ids(sources), results).len() == sources.len(),
{
    law_one_error_per_failing_site(energy_source_ids(sources), results);
}

} // verus!
