//! Cross-site aggregation data that carries no measured values.

use vstd::prelude::*;

use crate::text::push_str;

verus! {

/// An error that occurred while querying a single site's data.
#[derive(Debug, Clone)]
pub enum AggregatorError {
    Unreachable(String),
    Query(String),
}

/// The message of an aggregation error: `site unreachable: {0}` or
/// `query failed: {0}`.
pub open spec fn aggregator_error_text(e: AggregatorError) -> Seq<char> {
    match e {
        AggregatorError::Unreachable(m) => "site unreachable: "@ + m@,
        AggregatorError::Query(m) => "query failed: "@ + m@,
    }
}

impl AggregatorError {
    /// The error's display text.
    pub fn to_display_string(&self) -> (r: String)
        ensures
            r@ == aggregator_error_text(*self),
    {
        match self {
            AggregatorError::Unreachable(m) => {
                let mut s = String::from_str("site unreachable: ");
                push_str(&mut s, m.as_str());
                s
            },
            AggregatorError::Query(m) => {
                let mut s = String::from_str("query failed: ");
                push_str(&mut s, m.as_str());
                s
            },
        }
    }
}

/// The rows that merging gives: for each successful site in order (sites
/// named by `(id, name)`), each of its rows with that site's id and name.
pub open spec fn merged_rows<T>(
    ids: Seq<(Seq<char>, Seq<char>)>,
    results: Seq<Result<Vec<T>, AggregatorError>>,
) -> Seq<(Seq<char>, Seq<char>, T)>
    decreases results.len(),
{
    if results.len() == 0 || ids.len() == 0 {
        seq![]
    } else {
        merged_rows(ids.drop_last(), results.drop_last()) + match results.last() {
            Ok(v) => v@.map_values(|t: T| (ids.last().0, ids.last().1, t)),
            Err(_) => Seq::<(Seq<char>, Seq<char>, T)>::empty(),
        }
    }
}

/// The error records that merging gives: for each failing site in order,
/// its id, name and error text.
pub open spec fn merged_errors<R>(
    ids: Seq<(Seq<char>, Seq<char>)>,
    results: Seq<Result<R, AggregatorError>>,
) -> Seq<(Seq<char>, Seq<char>, Seq<char>)>
    decreases results.len(),
{
    if results.len() == 0 || ids.len() == 0 {
        seq![]
    } else {
        merged_errors(ids.drop_last(), results.drop_last()) + match results.last() {
            Ok(_) => Seq::<(Seq<char>, Seq<char>, Seq<char>)>::empty(),
            Err(e) => seq![(ids.last().0, ids.last().1, aggregator_error_text(e))],
        }
    }
}

/// The values of the successful results, in order.
pub open spec fn merged_values<R>(results: Seq<Result<R, AggregatorError>>) -> Seq<R>
    decreases results.len(),
{
    if results.len() == 0 {
        seq![]
    } else {
        merged_values(results.drop_last()) + match results.last() {
            Ok(v) => seq![v],
            Err(_) => Seq::<R>::empty(),
        }
    }
}

/// Total number of rows of the successful results.
pub open spec fn ok_row_count<T>(results: Seq<Result<Vec<T>, AggregatorError>>) -> nat
    decreases results.len(),
{
    if results.len() == 0 {
        0
    } else {
        ok_row_count(results.drop_last()) + match results.last() {
            Ok(v) => v@.len(),
            Err(_) => 0nat,
        }
    }
}

/// Number of failing results.
pub open spec fn failure_count<R>(results: Seq<Result<R, AggregatorError>>) -> nat
    decreases results.len(),
{
    if results.len() == 0 {
        0
    } else {
        failure_count(results.drop_last()) + if results.last() is Err { 1nat } else { 0nat }
    }
}

/// A fan-out yields exactly the rows of the successful sites: as many rows
/// as those sites returned together, however many sites failed (per-site
/// limits add up, so the total can exceed one site's limit).
pub proof fn law_row_count_is_sum_of_successes<T>(
    ids: Seq<(Seq<char>, Seq<char>)>,
    results: Seq<Result<Vec<T>, AggregatorError>>,
)
    requires
        ids.len() == results.len(),
    ensures
        merged_rows(ids, results).len() == ok_row_count(results),
    decreases results.len(),
{
    if results.len() > 0 {
        law_row_count_is_sum_of_successes(ids.drop_last(), results.drop_last());
    }
}

/// Every failing site is reported exactly once and no successful site is:
/// there are as many error records as failing sites.
pub proof fn law_one_error_per_failing_site<R>(
    ids: Seq<(Seq<char>, Seq<char>)>,
    results: Seq<Result<R, AggregatorError>>,
)
    requires
        ids.len() == results.len(),
    ensures
        merged_errors(ids, results).len() == failure_count(results),
        merged_values(results).len() + failure_count(results) == results.len(),
    decreases results.len(),
{
    if results.len() > 0 {
        law_one_error_per_failing_site(ids.drop_last(), results.drop_last());
    }
}

/// One unreachable site does not blank the others: dropping a failing site
/// (its identity and its result) changes neither the merged rows nor the
/// successful values, and only removes that site's error record.
pub proof fn law_failing_site_is_skipped<T>(
    ids: Seq<(Seq<char>, Seq<char>)>,
    results: Seq<Result<Vec<T>, AggregatorError>>,
    k: int,
)
    requires
        ids.len() == results.len(),
        0 <= k < results.len(),
        results[k] is Err,
    ensures
        merged_rows(ids, results) == merged_rows(ids.remove(k), results.remove(k)),
        merged_values(results) == merged_values(results.remove(k)),
        merged_errors(ids, results).len() == merged_errors(ids.remove(k), results.remove(k)).len() + 1,
    decreases results.len(),
{
    if k == results.len() - 1 {
        assert(ids.remove(k) =~= ids.drop_last());
        assert(results.remove(k) =~= results.drop_last());
        assert(merged_rows(ids, results) =~= merged_rows(ids.drop_last(), results.drop_last()));
        assert(merged_values(results) =~= merged_values(results.drop_last()));
    } else {
        law_failing_site_is_skipped(ids.drop_last(), results.drop_last(), k);
        assert(ids.remove(k).drop_last() =~= ids.drop_last().remove(k));
        assert(results.remove(k).drop_last() =~= results.drop_last().remove(k));
        assert(ids.remove(k).last() == ids.last());
        assert(results.remove(k).last() == results.last());
    }
}

/// Simplified energy meter for cross-site aggregation views.
#[derive(Debug, Clone)]
pub struct SiteMeter {
    pub id: i64,
    pub name: String,
}

} // verus!
