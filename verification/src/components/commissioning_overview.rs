//! Commissioning overview: counts over all devices, each device's row and
//! the CSV report.

use vstd::prelude::*;

use crate::components::commissioning_tab::{percent_of, SessionStatus};
use crate::text::{dec_digits, push_char, push_dec, push_str};

verus! {

/// Progress of one device's commissioning session, with its status and
/// the status's text form.
pub struct CommissionSummary {
    pub device_id: String,
    pub status: SessionStatus,
    pub status_text: String,
    pub total: u64,
    pub verified: u64,
    pub failed: u64,
    pub deferred: u64,
    pub not_started: u64,
}

/// `s` with every comma turned into a semicolon.
pub open spec fn commas_to_semicolons(s: Seq<char>) -> Seq<char> {
    s.map_values(|c: char| if c == ',' { ';' } else { c })
}

/// The report's column names.
pub open spec fn summary_csv_header() -> Seq<char> {
    "device_id,device_name,status,total,verified,failed,deferred,not_started\n"@
}

/// One report line: device id, device name (commas turned into
/// semicolons), status and the five counts.
pub open spec fn summary_row(s: CommissionSummary, name: Seq<char>) -> Seq<char> {
    s.device_id@ + seq![','] + commas_to_semicolons(name) + seq![','] + s.status_text@ + seq![',']
        + dec_digits(s.total as nat) + seq![','] + dec_digits(s.verified as nat) + seq![',']
        + dec_digits(s.failed as nat) + seq![','] + dec_digits(s.deferred as nat) + seq![',']
        + dec_digits(s.not_started as nat) + seq!['\n']
}

/// The lines of the first `n` devices.
pub open spec fn summary_rows(data: Seq<(CommissionSummary, String)>, n: nat) -> Seq<char>
    decreases n,
{
    if n == 0 || n > data.len() {
        seq![]
    } else {
        summary_rows(data, (n - 1) as nat) + summary_row(data[n - 1].0, data[n - 1].1@)
    }
}

/// Appends `name` with every comma turned into a semicolon.
fn push_name(out: &mut String, name: &str)
    ensures
        final(out)@ == old(out)@ + commas_to_semicolons(name@),
{
    let n = name.unicode_len();
    let ghost before = out@;
    let mut i: usize = 0;
    while i < n
        invariant
            n == name@.len(),
            i <= n,
            out@ == before + commas_to_semicolons(name@.take(i as int)),
        decreases n - i,
    {
        let c = name.get_char(i);
        push_char(out, if c == ',' { ';' } else { c });
        i = i + 1;
        assert(out@ =~= before + commas_to_semicolons(name@.take(i as int)));
    }
    assert(name@.take(n as int) =~= name@);
}

/// One report line (see `summary_row`).
fn summary_line(s: &CommissionSummary, name: &String) -> (r: String)
    ensures
        r@ == summary_row(*s, name@),
{
    let mut row = String::new();
    push_str(&mut row, s.device_id.as_str());
    push_char(&mut row, ',');
    push_name(&mut row, name.as_str());
    push_char(&mut row, ',');
    push_str(&mut row, s.status_text.as_str());
    push_char(&mut row, ',');
    push_dec(&mut row, s.total);
    push_char(&mut row, ',');
    push_dec(&mut row, s.verified);
    push_char(&mut row, ',');
    push_dec(&mut row, s.failed);
    push_char(&mut row, ',');
    push_dec(&mut row, s.deferred);
    push_char(&mut row, ',');
    push_dec(&mut row, s.not_started);
    push_char(&mut row, '\n');
    assert(row@ =~= summary_row(*s, name@));
    row
}

/// The CSV report over all devices: the header, then one line per
/// device with its display name.
pub fn summary_csv(data: &Vec<(CommissionSummary, String)>) -> (r: String)
    ensures
        r@ == summary_csv_header() + summary_rows(data@, data@.len()),
{
    let mut csv = String::from_str(
        "device_id,device_name,status,total,verified,failed,deferred,not_started\n",
    );
    let mut i: usize = 0;
    while i < data.len()
        invariant
            i <= data@.len(),
            csv@ == summary_csv_header() + summary_rows(data@, i as nat),
        decreases data.len() - i,
    {
        let row = summary_line(&data[i].0, &data[i].1);
        push_str(&mut csv, row.as_str());
        proof {
            assert(csv@ =~= summary_csv_header() + summary_rows(data@, (i + 1) as nat));
        }
        i = i + 1;
    }
    csv
}

/// How many devices' sessions have a status that `pick` accepts.
pub open spec fn count_sessions(data: Seq<(CommissionSummary, String)>, pick: spec_fn(SessionStatus) -> bool) -> nat
    decreases data.len(),
{
    if data.len() == 0 {
        0
    } else {
        count_sessions(data.drop_last(), pick) + if pick(data.last().0.status) { 1nat } else { 0 }
    }
}

/// Signed off.
pub open spec fn is_signed_off(s: SessionStatus) -> bool {
    s == SessionStatus::SignedOff
}

/// Started and not signed off.
pub open spec fn is_underway(s: SessionStatus) -> bool {
    s == SessionStatus::InProgress || s == SessionStatus::Completed
}

/// Not started.
pub open spec fn is_not_started(s: SessionStatus) -> bool {
    s == SessionStatus::NotStarted
}

/// The summary cards: all devices, signed off, in progress (started or
/// completed) and not started.
pub struct OverviewCounts {
    pub total_devices: usize,
    pub signed_off: usize,
    pub in_progress: usize,
    pub not_started: usize,
}

/// Counts the devices for the summary cards.
pub fn overview_counts(data: &Vec<(CommissionSummary, String)>) -> (r: OverviewCounts)
    ensures
        r.total_devices == data@.len(),
        r.signed_off == count_sessions(data@, |s: SessionStatus| is_signed_off(s)),
        r.in_progress == count_sessions(data@, |s: SessionStatus| is_underway(s)),
        r.not_started == count_sessions(data@, |s: SessionStatus| is_not_started(s)),
        r.signed_off + r.in_progress + r.not_started == r.total_devices,
{
    let ghost so = |s: SessionStatus| is_signed_off(s);
    let ghost ip = |s: SessionStatus| is_underway(s);
    let ghost ns = |s: SessionStatus| is_not_started(s);
    let mut signed_off: usize = 0;
    let mut in_progress: usize = 0;
    let mut not_started: usize = 0;
    let mut i: usize = 0;
    while i < data.len()
        invariant
            i <= data@.len(),
            so == (|s: SessionStatus| is_signed_off(s)),
            ip == (|s: SessionStatus| is_underway(s)),
            ns == (|s: SessionStatus| is_not_started(s)),
            signed_off == count_sessions(data@.take(i as int), so),
            in_progress == count_sessions(data@.take(i as int), ip),
            not_started == count_sessions(data@.take(i as int), ns),
            signed_off + in_progress + not_started == i,
        decreases data.len() - i,
    {
        proof {
            assert(data@.take(i + 1).drop_last() =~= data@.take(i as int));
        }
        match data[i].0.status {
            SessionStatus::SignedOff => {
                signed_off = signed_off + 1;
            },
            SessionStatus::InProgress | SessionStatus::Completed => {
                in_progress = in_progress + 1;
            },
            SessionStatus::NotStarted => {
                not_started = not_started + 1;
            },
        }
        i = i + 1;
    }
    proof {
        assert(data@.take(data@.len() as int) =~= data@);
    }
    OverviewCounts { total_devices: data.len(), signed_off, in_progress, not_started }
}

/// The name shown for a device: its display name when the device is
/// known, its id otherwise.
pub fn device_display_name(display_name: Option<String>, device_id: &String) -> (r: String)
    ensures
        r@ == match display_name {
            Some(n) => n@,
            None => device_id@,
        },
{
    match display_name {
        Some(n) => n,
        None => device_id.clone(),
    }
}

/// Badge class of a session status.
pub open spec fn session_badge_text(s: SessionStatus) -> Seq<char> {
    match s {
        SessionStatus::NotStarted => "badge badge-inactive"@,
        SessionStatus::InProgress => "badge badge-info"@,
        SessionStatus::Completed => "badge badge-warning"@,
        SessionStatus::SignedOff => "badge badge-ok"@,
    }
}

/// Badge class of a session status.
pub fn session_badge_class(s: SessionStatus) -> (r: &'static str)
    ensures
        r@ == session_badge_text(s),
{
    match s {
        SessionStatus::NotStarted => "badge badge-inactive",
        SessionStatus::InProgress => "badge badge-info",
        SessionStatus::Completed => "badge badge-warning",
        SessionStatus::SignedOff => "badge badge-ok",
    }
}

/// Whole percent of `part` in `total` (0 for no total), for a row's
/// progress text and bar.
pub fn row_percent(part: u64, total: u64) -> (r: u64)
    requires
        part <= u64::MAX / 100,
    ensures
        r == percent_of(part as int, total as int),
{
    if total > 0 {
        (part * 100) / total
    } else {
        0
    }
}

} // verus!
