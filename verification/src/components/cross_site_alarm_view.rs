//! Cross-site alarm view: severity styling, compact ages, and what the
//! body of a cross-site view shows.

use vstd::prelude::*;

use crate::alarm_model::AlarmSeverity;
use crate::calendar::tdiv;
use crate::clock::now_unix_secs;
use crate::text::{int_text, push_int, push_str};

verus! {

/// CSS class of a severity.
pub open spec fn severity_class_text(sev: AlarmSeverity) -> Seq<char> {
    match sev {
        AlarmSeverity::LifeSafety => "sev-life-safety"@,
        AlarmSeverity::Critical => "sev-critical"@,
        AlarmSeverity::Warning => "sev-warning"@,
        AlarmSeverity::Info => "sev-info"@,
    }
}

/// CSS class of a severity.
pub fn severity_class(sev: AlarmSeverity) -> (r: &'static str)
    ensures
        r@ == severity_class_text(sev),
{
    match sev {
        AlarmSeverity::LifeSafety => "sev-life-safety",
        AlarmSeverity::Critical => "sev-critical",
        AlarmSeverity::Warning => "sev-warning",
        AlarmSeverity::Info => "sev-info",
    }
}

/// Compact age of the millisecond timestamp `ms` at `now` (seconds):
/// `just now` under a minute (and for a future time), then whole minutes,
/// hours or days.
pub open spec fn age_text(ms: int, now: int) -> Seq<char> {
    let diff = now - tdiv(ms, 1000);
    if diff < 60 {
        "just now"@
    } else if diff < 3600 {
        int_text(diff / 60) + " min ago"@
    } else if diff < 86400 {
        int_text(diff / 3600) + " h ago"@
    } else {
        int_text(diff / 86400) + " d ago"@
    }
}

/// Compact age of `ms` at the given time `now` (seconds since the epoch).
pub fn format_ms_at(ms: i64, now: i64) -> (r: String)
    ensures
        r@ == age_text(ms as int, now as int),
{
    let secs = ms / 1000;
    let diff: i128 = now as i128 - secs as i128;
    if diff < 60 {
        String::from_str("just now")
    } else if diff < 3600 {
        let mut s = String::new();
        push_int(&mut s, (diff / 60) as i64);
        push_str(&mut s, " min ago");
        s
    } else if diff < 86400 {
        let mut s = String::new();
        push_int(&mut s, (diff / 3600) as i64);
        push_str(&mut s, " h ago");
        s
    } else {
        let mut s = String::new();
        push_int(&mut s, (diff / 86400) as i64);
        push_str(&mut s, " d ago");
        s
    }
}

/// Compact age of `ms` now.
pub fn format_ms(ms: i64) -> (r: String)
    ensures
        exists|now: i64| r@ == age_text(ms as int, now as int),
{
    let now = now_unix_secs();
    format_ms_at(ms, now)
}

/// What the body of a cross-site view shows below the rows of unreachable
/// sites: a note when no site has data and none failed, the table when
/// there are rows, nothing more otherwise.
#[derive(Debug, Clone, Copy, PartialEq, Eq, Structural)]
pub enum CrossSiteBody {
    NothingConfigured,
    Table,
    ErrorsOnly,
}

/// What the body of a cross-site view shows (see `CrossSiteBody`).
pub fn cross_site_body(rows: usize, site_errors: usize) -> (r: CrossSiteBody)
    ensures
        r == if rows == 0 && site_errors == 0 {
            CrossSiteBody::NothingConfigured
        } else if rows > 0 {
            CrossSiteBody::Table
        } else {
            CrossSiteBody::ErrorsOnly
        },
{
    if rows == 0 && site_errors == 0 {
        CrossSiteBody::NothingConfigured
    } else if rows > 0 {
        CrossSiteBody::Table
    } else {
        CrossSiteBody::ErrorsOnly
    }
}

/// The text after an unreachable site's name.
pub fn unreachable_text(error: &str) -> (r: String)
    ensures
        r@ == " unreachable: "@ + error@,
{
    let mut t = String::from_str(" unreachable: ");
    push_str(&mut t, error);
    t
}

/// The span of the energy view's rollup: the seven days up to `now_ms`.
pub fn seven_day_window(now_ms: i64) -> (r: (i64, i64))
    requires
        now_ms >= i64::MIN + 604800000,
    ensures
        r.0 == now_ms - 604800000,
        r.1 == now_ms,
{
    (now_ms - 604800000, now_ms)
}

} // verus!
