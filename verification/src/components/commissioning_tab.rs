//! Commissioning checklist of one device: how a session is loaded or
//! started, what each item offers and what its actions record, progress,
//! filtering, timestamps and the CSV report.

use vstd::prelude::*;

use crate::calendar::{date_minute_string, date_minute_text, tdiv};
use crate::civil::{civil_day, civil_from_day_number, lemma_trunc_floor};
use crate::text::{csv_join, csv_record, lemma_csv_join_reads_back, csv_field, csv_field_string, dec_digits, push_char, push_dec, push_str, str_eq};

verus! {

/// `YYYY-MM-DD HH:MM` in UTC of a millisecond timestamp: the seconds are
/// the milliseconds divided toward zero, the day is counted down to the
/// day that holds them (also before 1970).
pub open spec fn timestamp_text(ms: int) -> Seq<char> {
    let secs = tdiv(ms, 1000);
    let tod = secs % 86400;
    let c = civil_day(secs / 86400);
    date_minute_text(c.0, c.1, c.2, tod / 3600, (tod % 3600) / 60)
}

/// Formats a millisecond timestamp as `YYYY-MM-DD HH:MM` (UTC).
pub fn format_timestamp(ms: i64) -> (r: String)
    ensures
        r@ == timestamp_text(ms as int),
{
    let total_secs = ms / 1000;
    let rem = total_secs % 86400;
    let time_of_day = if rem < 0 { rem + 86400 } else { rem };
    let hour = time_of_day / 3600;
    let minute = (time_of_day % 3600) / 60;
    let mut days = total_secs / 86400;
    if total_secs < 0 && total_secs % 86400 != 0 {
        days -= 1;
    }
    proof {
        lemma_trunc_floor(total_secs as int, 86400);
        assert(time_of_day as int == total_secs as int % 86400);
        assert(days as int == total_secs as int / 86400);
    }
    let (y, m, d) = civil_from_day_number(days);
    date_minute_string(y, m, d, hour, minute)
}

/// Escapes a CSV field: wrapped in quotes (inner quotes doubled) when it
/// holds a comma, a quote or a line feed.
pub fn csv_escape(s: &str) -> (r: String)
    ensures
        r@ == csv_field(s@, false),
{
    csv_field_string(s, false)
}

/// Where a checklist item stands.
#[derive(Debug, Clone, Copy, PartialEq, Eq, Structural)]
pub enum ItemStatus {
    NotStarted,
    InProgress,
    Verified,
    Failed,
    Deferred,
}

/// What a checklist item verifies.
#[derive(Debug, Clone, Copy, PartialEq, Eq, Structural)]
pub enum ItemType {
    ReadVerify,
    WriteVerify,
    AlarmVerify,
    ScheduleVerify,
}

/// Where a device's commissioning session stands.
#[derive(Debug, Clone, Copy, PartialEq, Eq, Structural)]
pub enum SessionStatus {
    NotStarted,
    InProgress,
    Completed,
    SignedOff,
}

/// One checklist item, with the labels of its type and status as they
/// are shown.
pub struct CommissionItem {
    pub id: i64,
    pub point_id: String,
    pub item_type: ItemType,
    pub status: ItemStatus,
    pub item_type_label: String,
    pub status_label: String,
    pub verified_by: Option<String>,
    pub verified_ms: Option<i64>,
    pub actual_value: Option<String>,
    pub notes: String,
}

/// The text of an optional string, empty for none.
pub open spec fn text_or_empty(o: Option<String>) -> Seq<char> {
    match o {
        Some(s) => s@,
        None => seq![],
    }
}

/// The report's column names.
pub open spec fn commission_csv_header() -> Seq<char> {
    "point_id,point_name,item_type,status,verified_by,verified_at,actual_value,notes\n"@
}

/// When an item was verified, as `timestamp_text`; empty if it was not.
pub open spec fn verified_at_text(item: CommissionItem) -> Seq<char> {
    match item.verified_ms {
        Some(ms) => timestamp_text(ms as int),
        None => seq![],
    }
}

/// One report line: the point id twice (id and name), type, status,
/// verifier, verification time, actual value and notes, each escaped.
pub open spec fn commission_row(item: CommissionItem) -> Seq<char> {
    csv_field(item.point_id@, false) + seq![','] + csv_field(item.point_id@, false) + seq![',']
        + csv_field(item.item_type_label@, false) + seq![','] + csv_field(item.status_label@, false)
        + seq![','] + csv_field(text_or_empty(item.verified_by), false) + seq![',']
        + csv_field(verified_at_text(item), false) + seq![','] + csv_field(text_or_empty(item.actual_value), false)
        + seq![','] + csv_field(item.notes@, false) + seq!['\n']
}

/// The eight fields of an item's report line: the point id twice (as id
/// and as name), the type, the status, the verifier, the verification
/// time, the actual value and the notes.
pub open spec fn commission_fields(item: CommissionItem) -> Seq<Seq<char>> {
    seq![
        item.point_id@,
        item.point_id@,
        item.item_type_label@,
        item.status_label@,
        text_or_empty(item.verified_by),
        verified_at_text(item),
        text_or_empty(item.actual_value),
        item.notes@,
    ]
}

/// A report line is its eight fields written as a CSV record, then a line
/// feed.
proof fn lemma_commission_row_is_join(item: CommissionItem)
    ensures
        commission_row(item) == csv_join(commission_fields(item), false) + seq!['\n'],
{
    let fs = commission_fields(item);
    assert(fs.take(1).len() == 1);
    assert(csv_join(fs.take(1), false) == csv_field(fs[0], false));
    assert(fs.take(2).drop_last() =~= fs.take(1));
    assert(fs.take(2).last() == fs[1]);
    assert(csv_join(fs.take(2), false) == csv_join(fs.take(1), false) + seq![','] + csv_field(fs[1], false));
    assert(fs.take(3).drop_last() =~= fs.take(2));
    assert(fs.take(3).last() == fs[2]);
    assert(csv_join(fs.take(3), false) == csv_join(fs.take(2), false) + seq![','] + csv_field(fs[2], false));
    assert(fs.take(4).drop_last() =~= fs.take(3));
    assert(fs.take(4).last() == fs[3]);
    assert(csv_join(fs.take(4), false) == csv_join(fs.take(3), false) + seq![','] + csv_field(fs[3], false));
    assert(fs.take(5).drop_last() =~= fs.take(4));
    assert(fs.take(5).last() == fs[4]);
    assert(csv_join(fs.take(5), false) == csv_join(fs.take(4), false) + seq![','] + csv_field(fs[4], false));
    assert(fs.take(6).drop_last() =~= fs.take(5));
    assert(fs.take(6).last() == fs[5]);
    assert(csv_join(fs.take(6), false) == csv_join(fs.take(5), false) + seq![','] + csv_field(fs[5], false));
    assert(fs.take(7).drop_last() =~= fs.take(6));
    assert(fs.take(7).last() == fs[6]);
    assert(csv_join(fs.take(7), false) == csv_join(fs.take(6), false) + seq![','] + csv_field(fs[6], false));
    assert(fs.take(8).drop_last() =~= fs.take(7));
    assert(fs.take(8).last() == fs[7]);
    assert(csv_join(fs.take(8), false) == csv_join(fs.take(7), false) + seq![','] + csv_field(fs[7], false));
    assert(fs.take(8) =~= fs);
    assert(commission_row(item) =~= csv_join(fs, false) + seq!['\n']);
}

/// Every report line ends with a line feed, and what precedes it reads
/// back (RFC 4180) as exactly eight fields: the point id twice, the type,
/// the status, the verifier, the verification time, the actual value and
/// the notes, whatever commas, quotes or line breaks they hold.
pub proof fn law_commission_row_reads_back(item: CommissionItem)
    ensures
        commission_row(item).len() > 0,
        commission_row(item).last() == '\n',
        csv_record(commission_row(item).drop_last()) == commission_fields(item),
        commission_fields(item).len() == 8,
        commission_fields(item)[7] == item.notes@,
{
    lemma_commission_row_is_join(item);
    let j = csv_join(commission_fields(item), false);
    assert((j + seq!['\n']).drop_last() =~= j);
    lemma_csv_join_reads_back(commission_fields(item), false);
}

/// The lines of the first `n` items.
pub open spec fn commission_rows(items: Seq<CommissionItem>, n: nat) -> Seq<char>
    decreases n,
{
    if n == 0 || n > items.len() {
        seq![]
    } else {
        commission_rows(items, (n - 1) as nat) + commission_row(items[n - 1])
    }
}

/// An optional string as a string slice, empty for none.
fn opt_str(o: &Option<String>) -> (r: &str)
    ensures
        r@ == text_or_empty(*o),
{
    match o {
        Some(s) => s.as_str(),
        None => {
            proof {
                reveal_strlit("");
            }
            ""
        },
    }
}

/// Appends an escaped field and the character after it.
fn push_field(out: &mut String, field: &str, after: char)
    ensures
        final(out)@ == old(out)@ + csv_field(field@, false) + seq![after],
{
    let f = csv_escape(field);
    push_str(out, f.as_str());
    push_char(out, after);
}

/// One report line (see `commission_row`).
fn item_row(item: &CommissionItem) -> (r: String)
    ensures
        r@ == commission_row(*item),
{
    let verified_at = match item.verified_ms {
        Some(ms) => format_timestamp(ms),
        None => String::new(),
    };
    assert(verified_at@ == verified_at_text(*item));
    let mut row = String::new();
    push_field(&mut row, item.point_id.as_str(), ',');
    push_field(&mut row, item.point_id.as_str(), ',');
    push_field(&mut row, item.item_type_label.as_str(), ',');
    push_field(&mut row, item.status_label.as_str(), ',');
    push_field(&mut row, opt_str(&item.verified_by), ',');
    push_field(&mut row, verified_at.as_str(), ',');
    push_field(&mut row, opt_str(&item.actual_value), ',');
    push_field(&mut row, item.notes.as_str(), '\n');
    assert(row@ =~= commission_row(*item));
    row
}

/// Builds the CSV report: the header, then one line per item.
pub fn build_csv(items: &Vec<CommissionItem>) -> (r: String)
    ensures
        r@ == commission_csv_header() + commission_rows(items@, items@.len()),
{
    let mut csv = String::from_str(
        "point_id,point_name,item_type,status,verified_by,verified_at,actual_value,notes\n",
    );
    let mut i: usize = 0;
    while i < items.len()
        invariant
            i <= items@.len(),
            csv@ == commission_csv_header() + commission_rows(items@, i as nat),
        decreases items.len() - i,
    {
        let row = item_row(&items[i]);
        push_str(&mut csv, row.as_str());
        proof {
            assert(csv@ =~= commission_csv_header() + commission_rows(items@, (i + 1) as nat));
        }
        i = i + 1;
    }
    csv
}

// ----------------------------------------------------------------
// Badges and the status filter
// ----------------------------------------------------------------

/// Badge class of an item type.
pub open spec fn type_badge_text(t: ItemType) -> Seq<char> {
    match t {
        ItemType::ReadVerify => "badge badge-info"@,
        ItemType::WriteVerify => "badge badge-warning"@,
        ItemType::AlarmVerify => "badge badge-danger"@,
        ItemType::ScheduleVerify => "badge badge-inactive"@,
    }
}

/// Badge class of an item type.
pub fn type_badge_class(t: ItemType) -> (r: &'static str)
    ensures
        r@ == type_badge_text(t),
{
    match t {
        ItemType::ReadVerify => "badge badge-info",
        ItemType::WriteVerify => "badge badge-warning",
        ItemType::AlarmVerify => "badge badge-danger",
        ItemType::ScheduleVerify => "badge badge-inactive",
    }
}

/// Badge class of an item status.
pub open spec fn status_badge_text(st: ItemStatus) -> Seq<char> {
    match st {
        ItemStatus::NotStarted => "badge badge-inactive"@,
        ItemStatus::InProgress => "badge badge-info"@,
        ItemStatus::Verified => "badge badge-ok"@,
        ItemStatus::Failed => "badge badge-danger"@,
        ItemStatus::Deferred => "badge badge-warning"@,
    }
}

/// Badge class of an item status.
pub fn status_badge_class(st: ItemStatus) -> (r: &'static str)
    ensures
        r@ == status_badge_text(st),
{
    match st {
        ItemStatus::NotStarted => "badge badge-inactive",
        ItemStatus::InProgress => "badge badge-info",
        ItemStatus::Verified => "badge badge-ok",
        ItemStatus::Failed => "badge badge-danger",
        ItemStatus::Deferred => "badge badge-warning",
    }
}

/// The status a filter choice selects; any other choice (`all`) selects
/// every item.
pub open spec fn status_filter(v: Seq<char>) -> Option<ItemStatus> {
    if v == "not_started"@ {
        Some(ItemStatus::NotStarted)
    } else if v == "in_progress"@ {
        Some(ItemStatus::InProgress)
    } else if v == "verified"@ {
        Some(ItemStatus::Verified)
    } else if v == "failed"@ {
        Some(ItemStatus::Failed)
    } else if v == "deferred"@ {
        Some(ItemStatus::Deferred)
    } else {
        None
    }
}

/// Reads the status filter's choice (see `status_filter`).
pub fn parse_status_filter(v: &str) -> (r: Option<ItemStatus>)
    ensures
        r == status_filter(v@),
{
    if str_eq(v, "not_started") {
        Some(ItemStatus::NotStarted)
    } else if str_eq(v, "in_progress") {
        Some(ItemStatus::InProgress)
    } else if str_eq(v, "verified") {
        Some(ItemStatus::Verified)
    } else if str_eq(v, "failed") {
        Some(ItemStatus::Failed)
    } else if str_eq(v, "deferred") {
        Some(ItemStatus::Deferred)
    } else {
        None
    }
}

/// Whether an item with status `st` passes the filter.
pub open spec fn passes_filter(filter: Option<ItemStatus>, st: ItemStatus) -> bool {
    match filter {
        Some(f) => st == f,
        None => true,
    }
}

/// Positions, in order, of the first `n` items that pass the filter.
pub open spec fn filtered_positions(items: Seq<CommissionItem>, filter: Option<ItemStatus>, n: nat) -> Seq<int>
    decreases n,
{
    if n == 0 || n > items.len() {
        seq![]
    } else if passes_filter(filter, items[n - 1].status) {
        filtered_positions(items, filter, (n - 1) as nat).push(n - 1)
    } else {
        filtered_positions(items, filter, (n - 1) as nat)
    }
}

/// Positions of the items that the filter shows, in list order.
pub fn filter_items(items: &Vec<CommissionItem>, filter: Option<ItemStatus>) -> (r: Vec<usize>)
    ensures
        r@.map_values(|i: usize| i as int) == filtered_positions(items@, filter, items@.len()),
{
    let mut out: Vec<usize> = Vec::new();
    let mut i: usize = 0;
    while i < items.len()
        invariant
            i <= items@.len(),
            out@.map_values(|k: usize| k as int) == filtered_positions(items@, filter, i as nat),
        decreases items.len() - i,
    {
        let pass = match filter {
            Some(f) => items[i].status == f,
            None => true,
        };
        if pass {
            out.push(i);
        }
        proof {
            assert(out@.map_values(|k: usize| k as int) =~= filtered_positions(items@, filter, (i + 1) as nat));
        }
        i = i + 1;
    }
    out
}

// ----------------------------------------------------------------
// Progress
// ----------------------------------------------------------------

/// How many of the items have status `st`.
pub open spec fn count_status(items: Seq<CommissionItem>, st: ItemStatus) -> nat
    decreases items.len(),
{
    if items.len() == 0 {
        0
    } else {
        count_status(items.drop_last(), st) + if items.last().status == st { 1nat } else { 0 }
    }
}

/// Whole percent of `part` in `total`, 0 for no total.
pub open spec fn percent_of(part: int, total: int) -> int {
    if total > 0 {
        (part * 100) / total
    } else {
        0
    }
}

/// Every item is counted under exactly its own status: the counts of the
/// five statuses add up to the number of items; a status that every item
/// has counts them all, one that no item has counts none.
pub proof fn law_status_counts_partition(items: Seq<CommissionItem>, st: ItemStatus)
    ensures
        count_status(items, ItemStatus::NotStarted) + count_status(items, ItemStatus::InProgress)
            + count_status(items, ItemStatus::Verified) + count_status(items, ItemStatus::Failed)
            + count_status(items, ItemStatus::Deferred) == items.len(),
        (forall|i: int| 0 <= i < items.len() ==> (#[trigger] items[i]).status == st) ==> count_status(items, st) == items.len(),
        (forall|i: int| 0 <= i < items.len() ==> (#[trigger] items[i]).status != st) ==> count_status(items, st) == 0,
    decreases items.len(),
{
    if items.len() > 0 {
        law_status_counts_partition(items.drop_last(), st);
        assert(items.last() == items[items.len() - 1]);
        if forall|i: int| 0 <= i < items.len() ==> (#[trigger] items[i]).status == st {
            assert forall|i: int| 0 <= i < items.drop_last().len() implies (#[trigger] items.drop_last()[i]).status == st by {
                assert(items.drop_last()[i] == items[i]);
            }
        }
        if forall|i: int| 0 <= i < items.len() ==> (#[trigger] items[i]).status != st {
            assert forall|i: int| 0 <= i < items.drop_last().len() implies (#[trigger] items.drop_last()[i]).status != st by {
                assert(items.drop_last()[i] == items[i]);
            }
        }
    }
}

/// A bar segment's width is the whole percent of its share, rounded
/// down: `pct` is the largest whole number with `pct * total <= part * 100`;
/// with no items every width is zero.
pub proof fn law_percent_rounds_down(part: int, total: int)
    requires
        0 <= part <= total,
    ensures
        total == 0 ==> percent_of(part, total) == 0,
        total > 0 ==> percent_of(part, total) * total <= part * 100 < (percent_of(part, total) + 1) * total,
        total > 0 ==> 0 <= percent_of(part, total) <= 100,
        total > 0 && part == total ==> percent_of(part, total) == 100,
{
    if total > 0 {
        let q = (part * 100) / total;
        assert(q * total <= part * 100 < (q + 1) * total) by (nonlinear_arith)
            requires total > 0, q == (part * 100) / total;
        assert(0 <= q <= 100) by (nonlinear_arith)
            requires total > 0, q == (part * 100) / total, 0 <= part <= total;
        if part == total {
            assert(q == 100) by (nonlinear_arith)
                requires total > 0, q == (part * 100) / total, part == total;
        }
    }
}

/// Counts of a checklist and the widths of the progress bar's segments.
pub struct CommissionProgress {
    pub total: usize,
    pub verified: usize,
    pub failed: usize,
    pub deferred: usize,
    pub pct_verified: usize,
    pub pct_failed: usize,
    pub pct_deferred: usize,
}

/// Verified, failed and deferred items are distinct items.
pub proof fn lemma_counts_within_total(items: Seq<CommissionItem>)
    ensures
        count_status(items, ItemStatus::Verified) + count_status(items, ItemStatus::Failed)
            + count_status(items, ItemStatus::Deferred) <= items.len(),
    decreases items.len(),
{
    if items.len() > 0 {
        lemma_counts_within_total(items.drop_last());
    }
}

/// Whole percents of parts that add up to at most the total add up to at
/// most 100.
pub proof fn lemma_percents_within_hundred(a: int, b: int, c: int, t: int)
    requires
        t > 0,
        a >= 0,
        b >= 0,
        c >= 0,
        a + b + c <= t,
    ensures
        percent_of(a, t) + percent_of(b, t) + percent_of(c, t) <= 100,
        percent_of(a, t) <= 100,
{
    vstd::arithmetic::div_mod::lemma_fundamental_div_mod(a * 100, t);
    vstd::arithmetic::div_mod::lemma_fundamental_div_mod(b * 100, t);
    vstd::arithmetic::div_mod::lemma_fundamental_div_mod(c * 100, t);
    vstd::arithmetic::div_mod::lemma_mod_bound(a * 100, t);
    vstd::arithmetic::div_mod::lemma_mod_bound(b * 100, t);
    vstd::arithmetic::div_mod::lemma_mod_bound(c * 100, t);
    let qa = (a * 100) / t;
    let qb = (b * 100) / t;
    let qc = (c * 100) / t;
    assert(t * (qa + qb + qc) <= t * 100) by (nonlinear_arith)
        requires
            a * 100 == t * qa + (a * 100) % t,
            b * 100 == t * qb + (b * 100) % t,
            c * 100 == t * qc + (c * 100) % t,
            (a * 100) % t >= 0,
            (b * 100) % t >= 0,
            (c * 100) % t >= 0,
            a + b + c <= t,
    ;
    assert(qa + qb + qc <= 100) by (nonlinear_arith)
        requires
            t * (qa + qb + qc) <= t * 100,
            t > 0,
    ;
    assert(qb >= 0 && qc >= 0) by (nonlinear_arith)
        requires
            b * 100 == t * qb + (b * 100) % t,
            c * 100 == t * qc + (c * 100) % t,
            (b * 100) % t < t,
            (c * 100) % t < t,
            b >= 0,
            c >= 0,
            t > 0,
    ;
}

/// Counts the items by status and sizes the progress bar.
pub fn commission_progress(items: &Vec<CommissionItem>) -> (r: CommissionProgress)
    requires
        items@.len() <= usize::MAX / 100,
    ensures
        r.total == items@.len(),
        r.verified == count_status(items@, ItemStatus::Verified),
        r.failed == count_status(items@, ItemStatus::Failed),
        r.deferred == count_status(items@, ItemStatus::Deferred),
        r.pct_verified == percent_of(r.verified as int, r.total as int),
        r.pct_failed == percent_of(r.failed as int, r.total as int),
        r.pct_deferred == percent_of(r.deferred as int, r.total as int),
        r.verified + r.failed + r.deferred <= r.total,
        r.pct_verified + r.pct_failed + r.pct_deferred <= 100,
{
    let total = items.len();
    let mut verified: usize = 0;
    let mut failed: usize = 0;
    let mut deferred: usize = 0;
    let mut i: usize = 0;
    while i < total
        invariant
            total == items@.len(),
            i <= total,
            verified == count_status(items@.take(i as int), ItemStatus::Verified),
            failed == count_status(items@.take(i as int), ItemStatus::Failed),
            deferred == count_status(items@.take(i as int), ItemStatus::Deferred),
            verified + failed + deferred <= i,
        decreases total - i,
    {
        proof {
            assert(items@.take(i + 1).drop_last() =~= items@.take(i as int));
            lemma_counts_within_total(items@.take(i + 1));
        }
        match items[i].status {
            ItemStatus::Verified => {
                verified = verified + 1;
            },
            ItemStatus::Failed => {
                failed = failed + 1;
            },
            ItemStatus::Deferred => {
                deferred = deferred + 1;
            },
            _ => {},
        }
        i = i + 1;
    }
    proof {
        assert(items@.take(total as int) =~= items@);
    }
    let (pv, pf, pd) = if total > 0 {
        proof {
            lemma_percents_within_hundred(verified as int, failed as int, deferred as int, total as int);
            lemma_percents_within_hundred(failed as int, verified as int, deferred as int, total as int);
            lemma_percents_within_hundred(deferred as int, verified as int, failed as int, total as int);
        }
        ((verified * 100) / total, (failed * 100) / total, (deferred * 100) / total)
    } else {
        (0, 0, 0)
    };
    CommissionProgress {
        total,
        verified,
        failed,
        deferred,
        pct_verified: pv,
        pct_failed: pf,
        pct_deferred: pd,
    }
}

/// The progress line above the bar.
pub open spec fn progress_line(p: CommissionProgress) -> Seq<char> {
    "Progress: "@ + dec_digits(p.verified as nat) + "/"@ + dec_digits(p.total as nat) + " verified | "@
        + dec_digits(p.failed as nat) + " failed | "@ + dec_digits(p.deferred as nat) + " deferred"@
}

/// Renders the progress line (see `progress_line`).
pub fn progress_text(p: &CommissionProgress) -> (r: String)
    ensures
        r@ == progress_line(*p),
{
    let mut out = String::new();
    push_str(&mut out, "Progress: ");
    push_dec(&mut out, p.verified as u64);
    push_str(&mut out, "/");
    push_dec(&mut out, p.total as u64);
    push_str(&mut out, " verified | ");
    push_dec(&mut out, p.failed as u64);
    push_str(&mut out, " failed | ");
    push_dec(&mut out, p.deferred as u64);
    push_str(&mut out, " deferred");
    assert(out@ =~= progress_line(*p));
    out
}

// ----------------------------------------------------------------
// Loading or starting a session
// ----------------------------------------------------------------

/// What a new session is seeded with for one discovered point.
pub struct CommissionSeed {
    pub point_id: String,
    pub writable: bool,
    pub alarmable: bool,
    pub schedulable: bool,
}

/// Seeds for the discovered points `(point id, writable)`: only writable
/// points get alarm and schedule checks.
pub fn commission_seeds(points: &Vec<(String, bool)>) -> (r: Vec<CommissionSeed>)
    ensures
        r@.len() == points@.len(),
        forall|i: int|
            0 <= i < points@.len() ==> {
                &&& (#[trigger] r@[i]).point_id@ == points@[i].0@
                &&& r@[i].writable == points@[i].1
                &&& r@[i].alarmable == points@[i].1
                &&& r@[i].schedulable == points@[i].1
            },
{
    let mut out: Vec<CommissionSeed> = Vec::new();
    let mut i: usize = 0;
    while i < points.len()
        invariant
            i <= points@.len(),
            out@.len() == i,
            forall|k: int|
                0 <= k < i ==> {
                    &&& (#[trigger] out@[k]).point_id@ == points@[k].0@
                    &&& out@[k].writable == points@[k].1
                    &&& out@[k].alarmable == points@[k].1
                    &&& out@[k].schedulable == points@[k].1
                },
        decreases points.len() - i,
    {
        let w = points[i].1;
        out.push(CommissionSeed { point_id: points[i].0.clone(), writable: w, alarmable: w, schedulable: w });
        i = i + 1;
    }
    out
}

/// The next step of loading a device's checklist.
pub enum LoadAction {
    /// Show the session with this id and list its items.
    ListItems(i64),
    /// No session and no right to start one: show nothing, say nothing.
    ShowReadOnly,
    /// Fetch the device's discovered points to start a session.
    FetchPoints,
    /// Start a session with these seeds.
    CreateSession(Vec<CommissionSeed>),
    /// Record the start in the audit log and look the new session up.
    RecordStartAndLookUp,
    /// Show no session and this message.
    Fail(String),
}

/// After looking the device's session up: show it, or, without the right
/// to start one, show nothing; else go on to fetch its points.
pub fn on_session_lookup(existing: Option<i64>, can_manage: bool) -> (r: LoadAction)
    ensures
        match existing {
            Some(id) => r == LoadAction::ListItems(id),
            None => if can_manage { r is FetchPoints } else { r is ShowReadOnly },
        },
{
    match existing {
        Some(id) => LoadAction::ListItems(id),
        None => if can_manage {
            LoadAction::FetchPoints
        } else {
            LoadAction::ShowReadOnly
        },
    }
}

/// The message when a device has no discovered points.
pub open spec fn no_points_message() -> Seq<char> {
    "No discovered points for this device."@
}

/// After fetching the points: none is an error; otherwise start a session
/// seeded from them.
pub fn on_points(points: &Vec<(String, bool)>) -> (r: LoadAction)
    ensures
        points@.len() == 0 ==> (r matches LoadAction::Fail(m) && m@ == no_points_message()),
        points@.len() > 0 ==> (r matches LoadAction::CreateSession(seeds) && seeds@.len() == points@.len()
            && forall|i: int|
            0 <= i < points@.len() ==> {
                &&& (#[trigger] seeds@[i]).point_id@ == points@[i].0@
                &&& seeds@[i].writable == points@[i].1
                &&& seeds@[i].alarmable == points@[i].1
                &&& seeds@[i].schedulable == points@[i].1
            }),
{
    if points.len() == 0 {
        LoadAction::Fail(String::from_str("No discovered points for this device."))
    } else {
        LoadAction::CreateSession(commission_seeds(points))
    }
}

/// After starting the session: record it and look it up, or report why
/// it could not be started.
pub fn on_session_created(result: Result<(), String>) -> (r: LoadAction)
    ensures
        match result {
            Ok(()) => r is RecordStartAndLookUp,
            Err(e) => r matches LoadAction::Fail(m) && m@ == "Failed to create session: "@ + e@,
        },
{
    match result {
        Ok(()) => LoadAction::RecordStartAndLookUp,
        Err(e) => {
            let mut m = String::from_str("Failed to create session: ");
            push_str(&mut m, e.as_str());
            LoadAction::Fail(m)
        },
    }
}

/// After looking the new session up: show it, or report that it is gone.
pub fn on_created_lookup(found: Option<i64>) -> (r: LoadAction)
    ensures
        match found {
            Some(id) => r == LoadAction::ListItems(id),
            None => r matches LoadAction::Fail(m) && m@ == "Session created but not found."@,
        },
{
    match found {
        Some(id) => LoadAction::ListItems(id),
        None => LoadAction::Fail(String::from_str("Session created but not found.")),
    }
}

// ----------------------------------------------------------------
// Item actions
// ----------------------------------------------------------------

/// A button on a checklist row.
#[derive(Debug, Clone, Copy, PartialEq, Eq, Structural)]
pub enum ItemAction {
    Verify,
    Fail,
    Defer,
    Retry,
}

/// The buttons a row offers for its status: open items can be verified,
/// failed or deferred; failed ones retried or deferred; deferred ones
/// retried; verified ones nothing.
pub open spec fn offered_actions(st: ItemStatus) -> Seq<ItemAction> {
    match st {
        ItemStatus::NotStarted | ItemStatus::InProgress => seq![ItemAction::Verify, ItemAction::Fail, ItemAction::Defer],
        ItemStatus::Verified => seq![],
        ItemStatus::Failed => seq![ItemAction::Retry, ItemAction::Defer],
        ItemStatus::Deferred => seq![ItemAction::Retry],
    }
}

/// The buttons a row offers (see `offered_actions`).
pub fn item_actions(st: ItemStatus) -> (r: Vec<ItemAction>)
    ensures
        r@ == offered_actions(st),
{
    let mut v: Vec<ItemAction> = Vec::new();
    match st {
        ItemStatus::NotStarted | ItemStatus::InProgress => {
            v.push(ItemAction::Verify);
            v.push(ItemAction::Fail);
            v.push(ItemAction::Defer);
        },
        ItemStatus::Verified => {},
        ItemStatus::Failed => {
            v.push(ItemAction::Retry);
            v.push(ItemAction::Defer);
        },
        ItemStatus::Deferred => {
            v.push(ItemAction::Retry);
        },
    }
    assert(v@ =~= offered_actions(st));
    v
}

/// Which audit entry a status change writes.
#[derive(Debug, Clone, Copy, PartialEq, Eq, Structural)]
pub enum AuditKind {
    VerifyItem,
    FailItem,
    DeferItem,
}

/// A status change to store: the new status, whether the user and the
/// observed value are recorded with it, the audit entry and its details.
pub struct StatusUpdate {
    pub status: ItemStatus,
    pub record_user: bool,
    pub record_value: bool,
    pub audit: AuditKind,
    pub details: String,
}

/// What pressing a row's button does.
pub enum ActionEffect {
    /// Read the point's live value and ask to confirm it.
    Confirm,
    /// Store this change.
    Update(StatusUpdate),
}

/// Whether verifying an item of this type goes through the value
/// confirmation (reads and writes) rather than straight to verified.
pub open spec fn verify_confirms(t: ItemType) -> bool {
    t == ItemType::ReadVerify || t == ItemType::WriteVerify
}

/// The change an action stores when it does not ask for confirmation:
/// `(status, record user, audit, details)`, or none where the row does not
/// offer the action.
pub open spec fn action_change(st: ItemStatus, a: ItemAction, pid: Seq<char>) -> Option<(ItemStatus, bool, AuditKind, Seq<char>)> {
    match st {
        ItemStatus::NotStarted | ItemStatus::InProgress => match a {
            ItemAction::Verify => Some((ItemStatus::Verified, true, AuditKind::VerifyItem, pid)),
            ItemAction::Fail => Some((ItemStatus::Failed, true, AuditKind::FailItem, pid)),
            ItemAction::Defer => Some((ItemStatus::Deferred, true, AuditKind::DeferItem, pid)),
            ItemAction::Retry => None,
        },
        ItemStatus::Verified => None,
        ItemStatus::Failed => match a {
            ItemAction::Retry => Some((ItemStatus::NotStarted, false, AuditKind::VerifyItem, "retry: "@ + pid)),
            ItemAction::Defer => Some((ItemStatus::Deferred, false, AuditKind::DeferItem, pid)),
            _ => None,
        },
        ItemStatus::Deferred => match a {
            ItemAction::Retry => Some((ItemStatus::NotStarted, false, AuditKind::VerifyItem, "retry: "@ + pid)),
            _ => None,
        },
    }
}

/// A change to store, built from its parts.
fn status_update(status: ItemStatus, record_user: bool, audit: AuditKind, details: String) -> (r: StatusUpdate)
    ensures
        r.status == status,
        r.record_user == record_user,
        !r.record_value,
        r.audit == audit,
        r.details@ == details@,
{
    StatusUpdate { status, record_user, record_value: false, audit, details }
}

/// What pressing a row's button does: nothing where the row does not
/// offer it; verifying a read or write check asks to confirm the live
/// value; otherwise the change of `action_change`, without a value.
pub fn action_effect(st: ItemStatus, t: ItemType, a: ItemAction, point_id: &str) -> (r: Option<ActionEffect>)
    ensures
        r is Some <==> offered_actions(st).contains(a),
        (r is Some && a == ItemAction::Verify && verify_confirms(t)) ==> r == Some(ActionEffect::Confirm),
        (r is Some && !(a == ItemAction::Verify && verify_confirms(t))) ==> (r matches Some(ActionEffect::Update(u))
            && action_change(st, a, point_id@) == Some((u.status, u.record_user, u.audit, u.details@))
            && !u.record_value),
{
    let pid = String::from_str(point_id);
    let retry_details = || -> (d: String)
        ensures
            d@ == "retry: "@ + point_id@,
    {
        let mut d = String::from_str("retry: ");
        push_str(&mut d, point_id);
        d
    };
    let r = match st {
        ItemStatus::NotStarted | ItemStatus::InProgress => match a {
            ItemAction::Verify => if t == ItemType::ReadVerify || t == ItemType::WriteVerify {
                Some(ActionEffect::Confirm)
            } else {
                Some(ActionEffect::Update(status_update(ItemStatus::Verified, true, AuditKind::VerifyItem, pid)))
            },
            ItemAction::Fail => Some(ActionEffect::Update(status_update(ItemStatus::Failed, true, AuditKind::FailItem, pid))),
            ItemAction::Defer => Some(ActionEffect::Update(status_update(ItemStatus::Deferred, true, AuditKind::DeferItem, pid))),
            ItemAction::Retry => None,
        },
        ItemStatus::Verified => None,
        ItemStatus::Failed => match a {
            ItemAction::Retry => Some(ActionEffect::Update(status_update(ItemStatus::NotStarted, false, AuditKind::VerifyItem, retry_details()))),
            ItemAction::Defer => Some(ActionEffect::Update(status_update(ItemStatus::Deferred, false, AuditKind::DeferItem, pid))),
            _ => None,
        },
        ItemStatus::Deferred => match a {
            ItemAction::Retry => Some(ActionEffect::Update(status_update(ItemStatus::NotStarted, false, AuditKind::VerifyItem, retry_details()))),
            _ => None,
        },
    };
    proof {
        let s = offered_actions(st);
        if s.contains(a) {
            let k = choose|k: int| 0 <= k < s.len() && s[k] == a;
        }
        assert(s.contains(a) <==> action_change(st, a, point_id@) is Some) by {
            if action_change(st, a, point_id@) is Some {
                match st {
                    ItemStatus::NotStarted | ItemStatus::InProgress => match a {
                        ItemAction::Verify => assert(s[0] == a),
                        ItemAction::Fail => assert(s[1] == a),
                        ItemAction::Defer => assert(s[2] == a),
                        _ => {},
                    },
                    ItemStatus::Failed => match a {
                        ItemAction::Retry => assert(s[0] == a),
                        ItemAction::Defer => assert(s[1] == a),
                        _ => {},
                    },
                    ItemStatus::Deferred => assert(s[0] == a),
                    _ => {},
                }
            }
        }
    }
    r
}

/// What confirming (or rejecting) a live value stores: verified or failed,
/// with the user and the value.
pub fn confirm_update(confirmed: bool, point_id: &str) -> (r: StatusUpdate)
    ensures
        r.status == (if confirmed { ItemStatus::Verified } else { ItemStatus::Failed }),
        r.record_user,
        r.record_value,
        r.audit == (if confirmed { AuditKind::VerifyItem } else { AuditKind::FailItem }),
        r.details@ == point_id@,
{
    StatusUpdate {
        status: if confirmed { ItemStatus::Verified } else { ItemStatus::Failed },
        record_user: true,
        record_value: true,
        audit: if confirmed { AuditKind::VerifyItem } else { AuditKind::FailItem },
        details: String::from_str(point_id),
    }
}

/// The question shown with the live value.
pub open spec fn confirm_question(t: ItemType, pid: Seq<char>) -> Seq<char> {
    if t == ItemType::WriteVerify {
        "Write test for "@ + pid + " — use the Write Dialog to command a value, then verify the current readback: "@
    } else {
        "Current value for "@ + pid + ": "@
    }
}

/// Renders the confirmation question (see `confirm_question`).
pub fn confirm_prompt(t: ItemType, point_id: &str) -> (r: String)
    ensures
        r@ == confirm_question(t, point_id@),
{
    if t == ItemType::WriteVerify {
        let mut out = String::from_str("Write test for ");
        push_str(&mut out, point_id);
        push_str(&mut out, " — use the Write Dialog to command a value, then verify the current readback: ");
        out
    } else {
        let mut out = String::from_str("Current value for ");
        push_str(&mut out, point_id);
        push_str(&mut out, ": ");
        out
    }
}

/// Every button a row offers leads to another status: a stored change
/// moves the item away from its status, and a confirmation stores verified
/// or failed, which an open item is not. A verified item offers nothing.
pub proof fn law_offered_actions_move_item(st: ItemStatus, a: ItemAction, pid: Seq<char>)
    requires
        offered_actions(st).contains(a),
    ensures
        action_change(st, a, pid) matches Some(c) && c.0 != st,
        offered_actions(ItemStatus::Verified).len() == 0,
        a == ItemAction::Verify ==> st != ItemStatus::Verified && st != ItemStatus::Failed && st != ItemStatus::Deferred,
{
    let s = offered_actions(st);
    let k = choose|k: int| 0 <= k < s.len() && s[k] == a;
}

// ----------------------------------------------------------------
// Panel
// ----------------------------------------------------------------

/// Which parts of the panel are shown.
pub struct PanelControls {
    /// The notice that only a manager can start a session (and nothing else).
    pub read_only_notice: bool,
    pub sign_off: bool,
    pub export: bool,
    pub reset: bool,
    pub row_actions: bool,
    pub signed_off_notice: bool,
}

/// The panel's controls for a user who may or may not manage
/// commissioning and the session's status (none if there is no session).
pub fn panel_controls(can_manage: bool, session: Option<SessionStatus>) -> (r: PanelControls)
    ensures
        r.read_only_notice == (session is None && !can_manage),
        r.sign_off == (can_manage && session == Some(SessionStatus::Completed)),
        r.export == can_manage,
        r.reset == (can_manage && session != Some(SessionStatus::SignedOff)),
        r.row_actions == (can_manage && session != Some(SessionStatus::SignedOff)),
        r.signed_off_notice == (session == Some(SessionStatus::SignedOff)),
{
    let signed_off = match session {
        Some(SessionStatus::SignedOff) => true,
        _ => false,
    };
    let completed = match session {
        Some(SessionStatus::Completed) => true,
        _ => false,
    };
    PanelControls {
        read_only_notice: session.is_none() && !can_manage,
        sign_off: can_manage && completed,
        export: can_manage,
        reset: can_manage && !signed_off,
        row_actions: can_manage && !signed_off,
        signed_off_notice: signed_off,
    }
}

/// The signed-off notice: who signed off and when (each empty if unknown).
pub open spec fn signoff_text(by: Option<String>, ms: Option<i64>) -> Seq<char> {
    "Signed off by "@ + text_or_empty(by) + " on "@ + match ms {
        Some(t) => timestamp_text(t as int),
        None => seq![],
    }
}

/// Renders the signed-off notice (see `signoff_text`).
pub fn signoff_notice(by: &Option<String>, ms: Option<i64>) -> (r: String)
    ensures
        r@ == signoff_text(*by, ms),
{
    let date = match ms {
        Some(t) => format_timestamp(t),
        None => String::new(),
    };
    let mut out = String::from_str("Signed off by ");
    push_str(&mut out, opt_str(by));
    push_str(&mut out, " on ");
    push_str(&mut out, date.as_str());
    assert(out@ =~= signoff_text(*by, ms));
    out
}

/// The name recorded for the current user: the user's name, or `system`
/// when nobody is signed in.
pub fn username_or_system(user: &Option<String>) -> (r: String)
    ensures
        r@ == match *user {
            Some(u) => u@,
            None => "system"@,
        },
{
    match user {
        Some(u) => u.clone(),
        None => String::from_str("system"),
    }
}

} // verus!
