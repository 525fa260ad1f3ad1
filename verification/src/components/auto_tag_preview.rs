//! The auto-tag preview shown before a device is accepted: where each
//! suggestion came from, how sure it is, and how its tags are shown.

use vstd::prelude::*;

use crate::text::push_str;

verus! {

/// Where a tag suggestion came from: the BAS Atlas taxonomy or the
/// built-in heuristics.
#[derive(Debug, Clone, Copy, PartialEq, Eq, Structural)]
pub enum TagSource {
    Atlas,
    Heuristic,
}

/// The source badge: its text and class.
pub fn source_badge(s: TagSource) -> (r: (&'static str, &'static str))
    ensures
        (r.0@, r.1@) == match s {
            TagSource::Atlas => ("atlas"@, "src-atlas"@),
            TagSource::Heuristic => ("heuristic"@, "src-heuristic"@),
        },
{
    match s {
        TagSource::Atlas => ("atlas", "src-atlas"),
        TagSource::Heuristic => ("heuristic", "src-heuristic"),
    }
}

/// The class of a confidence given in whole percent: high from 80, middle
/// from 50, low below.
pub fn confidence_class(pct: i32) -> (r: &'static str)
    ensures
        r@ == if pct >= 80 {
            "conf-high"@
        } else if pct >= 50 {
            "conf-mid"@
        } else {
            "conf-low"@
        },
{
    if pct >= 80 {
        "conf-high"
    } else if pct >= 50 {
        "conf-mid"
    } else {
        "conf-low"
    }
}

/// A tag chip: `name: value` for a tag with a non-empty value, the name
/// alone otherwise.
pub fn chip_label(name: &str, value: &Option<String>) -> (r: String)
    ensures
        r@ == match value {
            Some(v) => if v@.len() > 0 { name@ + ": "@ + v@ } else { name@ },
            None => name@,
        },
{
    let mut out = String::from_str(name);
    match value {
        Some(v) => {
            if v.unicode_len() > 0 {
                push_str(&mut out, ": ");
                push_str(&mut out, v.as_str());
            }
        },
        None => {},
    }
    out
}

/// What the preview modal's body shows: still loading, the failure, or
/// the preview.
#[derive(Debug, PartialEq)]
pub enum PreviewPane {
    Loading,
    Failed(String),
    Ready,
}

/// What the preview modal's body shows for the preview's outcome so far.
pub fn preview_pane(outcome: &Option<Result<(), String>>) -> (r: PreviewPane)
    ensures
        match outcome {
            None => r == PreviewPane::Loading,
            Some(Ok(())) => r == PreviewPane::Ready,
            Some(Err(e)) => r matches PreviewPane::Failed(m) && m@ == "Preview failed: "@ + e@,
        },
{
    match outcome {
        None => PreviewPane::Loading,
        Some(Ok(())) => PreviewPane::Ready,
        Some(Err(e)) => {
            let mut m = String::from_str("Preview failed: ");
            push_str(&mut m, e.as_str());
            PreviewPane::Failed(m)
        },
    }
}

} // verus!
