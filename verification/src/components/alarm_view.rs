//! Alarm view: history filters, `datetime-local` text, BACnet point ids and
//! the search over configured devices' points.

use vstd::prelude::*;

use crate::alarm_model::{AlarmSeverity, AlarmType};
use crate::bacnet::{
    bacnet_object_type_names, event_state_from_u32, event_state_of_code, object_type_from_name, object_type_named,
    BacnetObjectId,
};
use crate::numparse::{all_digits, is_digit, parse_i64, parse_i64_spec, parse_u32, parse_u32_spec};
use crate::text::{csv_join, csv_plain, csv_record, lemma_csv_join_reads_back, lemma_int_text_plain, csv_unquote, lemma_csv_field_unquotes, opt_text, dec_digits, int_padded, push_dec, push_int_padded, csv_field, csv_field_string, chars_of, int_text, push_char, push_int, push_str, contains_chars, has_substring, lowercase, pieces_view, split_chars, split_on, str_eq, string_of, to_lowercase};

use rustbac_core::services::acknowledge_alarm::EventState;

verus! {

// ----------------------------------------------------------------
// History filter
// ----------------------------------------------------------------

/// Snapshot of filter values, only updated on Apply/Clear.
#[derive(Clone, Debug)]
pub struct HistoryFilterSnapshot {
    pub severity: Option<AlarmSeverity>,
    pub search: String,
    pub device: String,
    pub point: String,
    pub transition: String,
    pub start: String,
    pub end: String,
    pub limit: i64,
}

/// A query over the alarm journal.
#[derive(Clone, Debug)]
pub struct AlarmHistoryQuery {
    pub device_id: Option<String>,
    pub point_id: Option<String>,
    pub severity: Option<AlarmSeverity>,
    pub from_state: Option<String>,
    pub to_state: Option<String>,
    pub search: Option<String>,
    pub start_ms: Option<i64>,
    pub end_ms: Option<i64>,
    pub limit: Option<i64>,
}

/// A filter field: absent when empty.
pub open spec fn nonempty_text(s: Seq<char>) -> Option<Seq<char>> {
    if s.len() == 0 { None } else { Some(s) }
}

/// State transition selected by the transition filter, as
/// `(from_state, to_state)`.
pub open spec fn transition_states(t: Seq<char>) -> (Option<Seq<char>>, Option<Seq<char>>) {
    if t == "raised"@ {
        (Some("normal"@), Some("offnormal"@))
    } else if t == "acknowledged"@ {
        (None, Some("acknowledged"@))
    } else if t == "cleared"@ {
        (None, Some("normal"@))
    } else {
        (None, None)
    }
}

fn opt_nonempty(s: &String) -> (r: Option<String>)
    ensures
        opt_text(r) == nonempty_text(s@),
{
    if s.as_str().is_empty() {
        None
    } else {
        Some(s.clone())
    }
}

impl HistoryFilterSnapshot {
    /// The journal query of this filter, with the start and end times given
    /// as `start_ms` and `end_ms` (the epoch times of `self.start` and
    /// `self.end`, which depend on the local time zone).
    pub fn to_query(&self, start_ms: Option<i64>, end_ms: Option<i64>) -> (r: AlarmHistoryQuery)
        ensures
            opt_text(r.device_id) == nonempty_text(self.device@),
            opt_text(r.point_id) == nonempty_text(self.point@),
            r.severity == self.severity,
            (opt_text(r.from_state), opt_text(r.to_state)) == transition_states(self.transition@),
            opt_text(r.search) == nonempty_text(self.search@),
            r.start_ms == start_ms,
            r.end_ms == end_ms,
            r.limit == Some(self.limit),
    {
        let t = self.transition.as_str();
        let (from_state, to_state): (Option<String>, Option<String>) = if str_eq(t, "raised") {
            (Some(String::from_str("normal")), Some(String::from_str("offnormal")))
        } else if str_eq(t, "acknowledged") {
            (None, Some(String::from_str("acknowledged")))
        } else if str_eq(t, "cleared") {
            (None, Some(String::from_str("normal")))
        } else {
            (None, None)
        };
        AlarmHistoryQuery {
            device_id: opt_nonempty(&self.device),
            point_id: opt_nonempty(&self.point),
            severity: self.severity,
            from_state,
            to_state,
            search: opt_nonempty(&self.search),
            start_ms,
            end_ms,
            limit: Some(self.limit),
        }
    }
}


/// The history filter's controls as set, before "Apply".
pub struct HistoryDraft {
    pub severity: Option<AlarmSeverity>,
    pub search: String,
    pub device: String,
    pub point: String,
    pub transition: String,
    pub start: String,
    pub end: String,
    /// The page size chosen, as text.
    pub limit: String,
}

/// "Apply": the controls become the filter; a page size that is not a
/// number counts as 200.
pub fn apply_filters(d: &HistoryDraft) -> (r: HistoryFilterSnapshot)
    ensures
        r.severity == d.severity,
        r.search@ == d.search@,
        r.device@ == d.device@,
        r.point@ == d.point@,
        r.transition@ == d.transition@,
        r.start@ == d.start@,
        r.end@ == d.end@,
        r.limit == match parse_i64_spec(d.limit@) {
            Some(v) => v,
            None => 200,
        },
{
    let cs = chars_of(d.limit.as_str());
    let limit = match parse_i64(&cs) {
        Some(v) => v,
        None => 200,
    };
    HistoryFilterSnapshot {
        severity: d.severity,
        search: d.search.clone(),
        device: d.device.clone(),
        point: d.point.clone(),
        transition: d.transition.clone(),
        start: d.start.clone(),
        end: d.end.clone(),
        limit,
    }
}

/// "Clear": no filter, pages of 200.
pub fn cleared_filters() -> (r: HistoryFilterSnapshot)
    ensures
        r.severity is None,
        r.search@.len() == 0 && r.device@.len() == 0 && r.point@.len() == 0,
        r.transition@.len() == 0 && r.start@.len() == 0 && r.end@.len() == 0,
        r.limit == 200,
{
    HistoryFilterSnapshot {
        severity: None,
        search: String::new(),
        device: String::new(),
        point: String::new(),
        transition: String::new(),
        start: String::new(),
        end: String::new(),
        limit: 200,
    }
}

/// The query that counts every event the filter matches: the same query
/// without its page size.
pub fn count_query(q: &AlarmHistoryQuery) -> (r: AlarmHistoryQuery)
    ensures
        opt_text(r.device_id) == opt_text(q.device_id),
        opt_text(r.point_id) == opt_text(q.point_id),
        r.severity == q.severity,
        opt_text(r.from_state) == opt_text(q.from_state),
        opt_text(r.to_state) == opt_text(q.to_state),
        opt_text(r.search) == opt_text(q.search),
        r.start_ms == q.start_ms,
        r.end_ms == q.end_ms,
        r.limit is None,
{
    AlarmHistoryQuery {
        device_id: q.device_id.clone(),
        point_id: q.point_id.clone(),
        severity: q.severity,
        from_state: q.from_state.clone(),
        to_state: q.to_state.clone(),
        search: q.search.clone(),
        start_ms: q.start_ms,
        end_ms: q.end_ms,
        limit: None,
    }
}

/// The line above the history table: how many events of how many are
/// shown, or that none matches once loading is done; nothing while
/// loading finds none.
pub fn history_count_text(shown: usize, total: i64, loading: bool) -> (r: Option<String>)
    ensures
        match r {
            Some(t) => if total > 0 {
                t@ == "Showing "@ + dec_digits(shown as nat) + " of "@ + int_text(total as int) + " events"@
            } else {
                !loading && t@ == "No matching events"@
            },
            None => total <= 0 && loading,
        },
{
    if total > 0 {
        let mut t = String::from_str("Showing ");
        push_dec(&mut t, shown as u64);
        push_str(&mut t, " of ");
        push_int(&mut t, total);
        push_str(&mut t, " events");
        Some(t)
    } else if !loading {
        Some(String::from_str("No matching events"))
    } else {
        None
    }
}

/// The abbreviation of a zero-based month, `???` out of range.
pub open spec fn month_abbrev(m: int) -> Seq<char> {
    if m == 0 { "Jan"@ }
    else if m == 1 { "Feb"@ }
    else if m == 2 { "Mar"@ }
    else if m == 3 { "Apr"@ }
    else if m == 4 { "May"@ }
    else if m == 5 { "Jun"@ }
    else if m == 6 { "Jul"@ }
    else if m == 7 { "Aug"@ }
    else if m == 8 { "Sep"@ }
    else if m == 9 { "Oct"@ }
    else if m == 10 { "Nov"@ }
    else if m == 11 { "Dec"@ }
    else { "???"@ }
}

/// The abbreviation of a zero-based month (see `month_abbrev`).
fn month_name(m: i32) -> (r: &'static str)
    ensures
        r@ == month_abbrev(m as int),
{
    if m == 0 { "Jan" }
    else if m == 1 { "Feb" }
    else if m == 2 { "Mar" }
    else if m == 3 { "Apr" }
    else if m == 4 { "May" }
    else if m == 5 { "Jun" }
    else if m == 6 { "Jul" }
    else if m == 7 { "Aug" }
    else if m == 8 { "Sep" }
    else if m == 9 { "Oct" }
    else if m == 10 { "Nov" }
    else if m == 11 { "Dec" }
    else { "???" }
}

/// How an alarm time is shown, from its local broken-down time: the time
/// of day `HH:MM:SS` when it falls on today, else the month, the day and
/// the time of day.
pub open spec fn alarm_time_text(same_day: bool, mon: int, day: int, hour: int, min: int, sec: int) -> Seq<char> {
    let clock = int_padded(hour, 2) + ":"@ + int_padded(min, 2) + ":"@ + int_padded(sec, 2);
    if same_day { clock } else { month_abbrev(mon) + " "@ + int_text(day) + " "@ + clock }
}

/// How an alarm time is shown (see `alarm_time_text`).
pub fn alarm_time_label(same_day: bool, mon: i32, day: i32, hour: i32, min: i32, sec: i32) -> (r: String)
    ensures
        r@ == alarm_time_text(same_day, mon as int, day as int, hour as int, min as int, sec as int),
{
    let mut s = String::new();
    if !same_day {
        push_str(&mut s, month_name(mon));
        push_str(&mut s, " ");
        push_int(&mut s, day as i64);
        push_str(&mut s, " ");
    }
    push_int_padded(&mut s, hour as i64, 2);
    push_str(&mut s, ":");
    push_int_padded(&mut s, min as i64, 2);
    push_str(&mut s, ":");
    push_int_padded(&mut s, sec as i64, 2);
    s
}

// ----------------------------------------------------------------
// `datetime-local` input values
// ----------------------------------------------------------------

/// The broken-down local time handed to `mktime`: years since 1900,
/// zero-based month, and the day, hour, minute and second as entered.
#[derive(Clone, Copy, Debug, PartialEq, Eq, Structural)]
pub struct LocalTimeFields {
    pub tm_year: i32,
    pub tm_mon: i32,
    pub tm_mday: i32,
    pub tm_hour: i32,
    pub tm_min: i32,
    pub tm_sec: i32,
}

/// The pieces that parse as `i64`, parsed, in order (the others dropped).
pub open spec fn parsed_numbers(pieces: Seq<Seq<char>>) -> Seq<i64>
    decreases pieces.len(),
{
    if pieces.len() == 0 {
        seq![]
    } else {
        parsed_numbers(pieces.drop_last()) + match parse_i64_spec(pieces.last()) {
            Some(v) => seq![v],
            None => Seq::<i64>::empty(),
        }
    }
}

/// Fields of a `datetime-local` value `YYYY-MM-DDTHH:MM[:SS]`: exactly one
/// `T`; of the `-`-separated date pieces exactly three must parse, of the
/// `:`-separated time pieces at least two; pieces that do not parse are
/// skipped. Each field is truncated to 32 bits as `as i32` does.
pub open spec fn local_fields(s: Seq<char>) -> Option<LocalTimeFields> {
    let parts = split_on(s, 'T');
    if s.len() == 0 || parts.len() != 2 {
        None
    } else {
        let d = parsed_numbers(split_on(parts[0], '-'));
        let t = parsed_numbers(split_on(parts[1], ':'));
        if d.len() != 3 || t.len() < 2 {
            None
        } else {
            Some(LocalTimeFields {
                tm_year: (d[0] - 1900) as i32,
                tm_mon: (d[1] - 1) as i32,
                tm_mday: d[2] as i32,
                tm_hour: t[0] as i32,
                tm_min: t[1] as i32,
                tm_sec: if t.len() > 2 { t[2] as i32 } else { 0 },
            })
        }
    }
}

/// Parses each piece as `i64`, keeping those that parse.
pub fn parse_numbers(pieces: &Vec<Vec<char>>) -> (r: Vec<i64>)
    ensures
        r@ == parsed_numbers(pieces_view(pieces@)),
{
    let ghost pv = pieces_view(pieces@);
    let mut out: Vec<i64> = Vec::new();
    let mut i: usize = 0;
    while i < pieces.len()
        invariant
            i <= pieces@.len(),
            pv == pieces_view(pieces@),
            out@ == parsed_numbers(pv.take(i as int)),
        decreases pieces.len() - i,
    {
        proof {
            assert(pv.take(i + 1).drop_last() =~= pv.take(i as int));
            assert(pv.take(i + 1).last() == pieces@[i as int]@);
        }
        match parse_i64(&pieces[i]) {
            Some(v) => out.push(v),
            None => {},
        }
        i = i + 1;
    }
    assert(pv.take(i as int) =~= pv);
    out
}

/// Fields of a `datetime-local` value such as `2026-03-24T14:30`, ready for
/// conversion from local time; `None` when the text does not have that shape.
pub fn parse_datetime_fields(s: &str) -> (r: Option<LocalTimeFields>)
    ensures
        r == local_fields(s@),
{
    if s.is_empty() {
        return None;
    }
    let cs = chars_of(s);
    let parts = split_chars(&cs, 'T');
    if parts.len() != 2 {
        return None;
    }
    proof {
        assert(pieces_view(parts@)[0] == parts@[0]@);
        assert(pieces_view(parts@)[1] == parts@[1]@);
    }
    let date_pieces = split_chars(&parts[0], '-');
    let time_pieces = split_chars(&parts[1], ':');
    let d = parse_numbers(&date_pieces);
    let t = parse_numbers(&time_pieces);
    if d.len() != 3 || t.len() < 2 {
        return None;
    }
    Some(LocalTimeFields {
        tm_year: (d[0] as i128 - 1900) as i32,
        tm_mon: (d[1] as i128 - 1) as i32,
        tm_mday: d[2] as i32,
        tm_hour: t[0] as i32,
        tm_min: t[1] as i32,
        tm_sec: if t.len() > 2 { t[2] as i32 } else { 0 },
    })
}

/// Milliseconds of an epoch time in seconds; a negative time (how `mktime`
/// reports failure) gives `None`.
pub fn epoch_to_ms(epoch: i64) -> (r: Option<i64>)
    requires
        epoch <= i64::MAX / 1000,
    ensures
        epoch < 0 ==> r is None,
        epoch >= 0 ==> r == Some((epoch * 1000) as i64),
{
    if epoch < 0 {
        None
    } else {
        Some(epoch * 1000)
    }
}


// ----------------------------------------------------------------
// Journal export
// ----------------------------------------------------------------

/// Escape a field for CSV output: wrapped in quotes (inner quotes doubled)
/// if it contains a comma, quote, line feed or carriage return.
pub fn csv_escape(s: &str) -> (r: String)
    ensures
        r@ == csv_field(s@, true),
{
    csv_field_string(s, true)
}

/// An escaped field reads back as the text: RFC 4180 unquoting of
/// `csv_escape(s)` gives `s`, whatever `s` holds.
pub proof fn law_csv_escape_round_trip(s: Seq<char>)
    ensures
        csv_unquote(csv_field(s, true)) == s,
{
    lemma_csv_field_unquotes(s, true);
}

/// A journal event as it goes into the CSV export: the local date-time
/// and the value already rendered as text (two decimals), the severity
/// as its text form.
pub struct AlarmCsvEvent {
    pub timestamp_ms: i64,
    pub datetime: String,
    pub device_id: String,
    pub point_id: String,
    pub severity: String,
    pub from_state: String,
    pub to_state: String,
    pub value_text: String,
    pub note: Option<String>,
}

/// The export's column names.
pub open spec fn alarm_csv_header() -> Seq<char> {
    "timestamp,datetime,device_id,point_id,severity,from_state,to_state,value,note\n"@
}

/// One export line: timestamp and date-time as they are, the ids,
/// severity and states escaped, the value as it is, the note escaped
/// (empty when there is none).
pub open spec fn alarm_csv_row(e: AlarmCsvEvent) -> Seq<char> {
    let note = match e.note {
        Some(n) => n@,
        None => seq![],
    };
    int_text(e.timestamp_ms as int) + seq![','] + e.datetime@ + seq![','] + csv_field(e.device_id@, true)
        + seq![','] + csv_field(e.point_id@, true) + seq![','] + csv_field(e.severity@, true)
        + seq![','] + csv_field(e.from_state@, true) + seq![','] + csv_field(e.to_state@, true)
        + seq![','] + e.value_text@ + seq![','] + csv_field(note, true) + seq!['\n']
}

/// The nine fields of an event's export line: timestamp, date-time,
/// device, point, severity, from and to states, value and note (empty when
/// there is none).
pub open spec fn alarm_csv_fields(e: AlarmCsvEvent) -> Seq<Seq<char>> {
    seq![
        int_text(e.timestamp_ms as int),
        e.datetime@,
        e.device_id@,
        e.point_id@,
        e.severity@,
        e.from_state@,
        e.to_state@,
        e.value_text@,
        match e.note {
            Some(n) => n@,
            None => seq![],
        },
    ]
}

/// An export line whose date-time and value are plain text (a date and a
/// number: no comma, quote or line break) ends with a line feed, and what
/// precedes it reads back (RFC 4180) as exactly its nine fields, whatever
/// commas, quotes or line breaks the ids, states and note hold.
pub proof fn law_alarm_csv_row_reads_back(e: AlarmCsvEvent)
    requires
        csv_plain(e.datetime@),
        csv_plain(e.value_text@),
    ensures
        alarm_csv_row(e).len() > 0,
        alarm_csv_row(e).last() == '\n',
        csv_record(alarm_csv_row(e).drop_last()) == alarm_csv_fields(e),
        alarm_csv_fields(e).len() == 9,
{
    let fs = alarm_csv_fields(e);
    lemma_int_text_plain(e.timestamp_ms as int);
    assert(csv_field(fs[0], true) == fs[0]);
    assert(csv_field(fs[1], true) == fs[1]);
    assert(csv_field(fs[7], true) == fs[7]);
    assert(fs.take(1).len() == 1);
    assert(csv_join(fs.take(1), true) == csv_field(fs[0], true));
    assert(fs.take(2).drop_last() =~= fs.take(1));
    assert(fs.take(2).last() == fs[1]);
    assert(csv_join(fs.take(2), true) == csv_join(fs.take(1), true) + seq![','] + csv_field(fs[1], true));
    assert(fs.take(3).drop_last() =~= fs.take(2));
    assert(fs.take(3).last() == fs[2]);
    assert(csv_join(fs.take(3), true) == csv_join(fs.take(2), true) + seq![','] + csv_field(fs[2], true));
    assert(fs.take(4).drop_last() =~= fs.take(3));
    assert(fs.take(4).last() == fs[3]);
    assert(csv_join(fs.take(4), true) == csv_join(fs.take(3), true) + seq![','] + csv_field(fs[3], true));
    assert(fs.take(5).drop_last() =~= fs.take(4));
    assert(fs.take(5).last() == fs[4]);
    assert(csv_join(fs.take(5), true) == csv_join(fs.take(4), true) + seq![','] + csv_field(fs[4], true));
    assert(fs.take(6).drop_last() =~= fs.take(5));
    assert(fs.take(6).last() == fs[5]);
    assert(csv_join(fs.take(6), true) == csv_join(fs.take(5), true) + seq![','] + csv_field(fs[5], true));
    assert(fs.take(7).drop_last() =~= fs.take(6));
    assert(fs.take(7).last() == fs[6]);
    assert(csv_join(fs.take(7), true) == csv_join(fs.take(6), true) + seq![','] + csv_field(fs[6], true));
    assert(fs.take(8).drop_last() =~= fs.take(7));
    assert(fs.take(8).last() == fs[7]);
    assert(csv_join(fs.take(8), true) == csv_join(fs.take(7), true) + seq![','] + csv_field(fs[7], true));
    assert(fs.take(9).drop_last() =~= fs.take(8));
    assert(fs.take(9).last() == fs[8]);
    assert(csv_join(fs.take(9), true) == csv_join(fs.take(8), true) + seq![','] + csv_field(fs[8], true));
    assert(fs.take(9) =~= fs);
    assert(alarm_csv_row(e) =~= csv_join(fs, true) + seq!['\n']);
    let j = csv_join(fs, true);
    assert((j + seq!['\n']).drop_last() =~= j);
    lemma_csv_join_reads_back(fs, true);
}

/// The lines of the first `n` events.
pub open spec fn alarm_csv_rows(events: Seq<AlarmCsvEvent>, n: nat) -> Seq<char>
    decreases n,
{
    if n == 0 || n > events.len() {
        seq![]
    } else {
        alarm_csv_rows(events, (n - 1) as nat) + alarm_csv_row(events[n - 1])
    }
}

/// Appends an escaped field and a comma.
fn push_escaped(out: &mut String, field: &str)
    ensures
        final(out)@ == old(out)@ + csv_field(field@, true) + seq![','],
{
    let f = csv_escape(field);
    push_str(out, f.as_str());
    push_char(out, ',');
}

/// One export line (see `alarm_csv_row`).
fn alarm_csv_line(e: &AlarmCsvEvent) -> (r: String)
    ensures
        r@ == alarm_csv_row(*e),
{
    let mut row = String::new();
    push_int(&mut row, e.timestamp_ms);
    push_char(&mut row, ',');
    push_str(&mut row, e.datetime.as_str());
    push_char(&mut row, ',');
    push_escaped(&mut row, e.device_id.as_str());
    push_escaped(&mut row, e.point_id.as_str());
    push_escaped(&mut row, e.severity.as_str());
    push_escaped(&mut row, e.from_state.as_str());
    push_escaped(&mut row, e.to_state.as_str());
    push_str(&mut row, e.value_text.as_str());
    push_char(&mut row, ',');
    let note = match &e.note {
        Some(n) => csv_escape(n.as_str()),
        None => {
            proof {
                reveal_strlit("");
            }
            csv_escape("")
        },
    };
    push_str(&mut row, note.as_str());
    push_char(&mut row, '\n');
    assert(row@ =~= alarm_csv_row(*e));
    row
}

/// The journal export: the header, then one line per event.
pub fn format_alarm_csv(events: &Vec<AlarmCsvEvent>) -> (r: String)
    ensures
        r@ == alarm_csv_header() + alarm_csv_rows(events@, events@.len()),
{
    let mut csv = String::from_str(
        "timestamp,datetime,device_id,point_id,severity,from_state,to_state,value,note\n",
    );
    let mut i: usize = 0;
    while i < events.len()
        invariant
            i <= events@.len(),
            csv@ == alarm_csv_header() + alarm_csv_rows(events@, i as nat),
        decreases events.len() - i,
    {
        let row = alarm_csv_line(&events[i]);
        push_str(&mut csv, row.as_str());
        proof {
            assert(csv@ =~= alarm_csv_header() + alarm_csv_rows(events@, (i + 1) as nat));
        }
        i = i + 1;
    }
    csv
}

// ----------------------------------------------------------------
// BACnet point ids
// ----------------------------------------------------------------

/// Position `p` of `s` splits it into an object-type name and an instance
/// number: `s[p]` is `-` and what follows is one or more ASCII digits.
pub open spec fn splits_at(s: Seq<char>, p: int) -> bool {
    0 <= p && p + 1 < s.len() && s[p] == '-' && all_digits(s.subrange(p + 1, s.len() as int))
}

/// A point id `"{type-name}-{instance}"` cut at its last `-` when digits
/// and only digits follow it: `(type name, instance digits)`.
pub open spec fn object_id_parts(s: Seq<char>) -> Option<(Seq<char>, Seq<char>)> {
    if exists|p: int| splits_at(s, p) {
        let p = choose|p: int| splits_at(s, p);
        Some((s.subrange(0, p), s.subrange(p + 1, s.len() as int)))
    } else {
        None
    }
}

/// At most one position splits a point id.
pub proof fn lemma_split_position_unique(s: Seq<char>, p: int, q: int)
    requires
        splits_at(s, p),
        splits_at(s, q),
    ensures
        p == q,
{
    if p < q {
        assert(s.subrange(p + 1, s.len() as int)[q - p - 1] == s[q]);
        assert(is_digit(s.subrange(p + 1, s.len() as int)[q - p - 1]));
    } else if q < p {
        assert(s.subrange(q + 1, s.len() as int)[p - q - 1] == s[p]);
        assert(is_digit(s.subrange(q + 1, s.len() as int)[p - q - 1]));
    }
}

/// A split point id rejoins: the type name, a `-` and the instance digits
/// give back the point id, and the digits are one or more ASCII digits.
pub proof fn law_object_id_parts_rejoin(s: Seq<char>)
    requires
        object_id_parts(s) is Some,
    ensures
        ({
            let (name, digits) = object_id_parts(s).unwrap();
            &&& name + seq!['-'] + digits == s
            &&& digits.len() > 0
            &&& all_digits(digits)
        }),
{
    let p = choose|p: int| splits_at(s, p);
    let (name, digits) = object_id_parts(s).unwrap();
    assert(name + seq!['-'] + digits =~= s);
}

/// Cuts a point id such as `analog-input-3` into `("analog-input", "3")`:
/// the last `-` that only digits (at least one) follow.
pub fn split_object_id(point_id: &str) -> (r: Option<(String, Vec<char>)>)
    ensures
        match r {
            Some((name, digits)) => object_id_parts(point_id@) == Some((name@, digits@)),
            None => object_id_parts(point_id@) is None,
        },
{
    let cs = chars_of(point_id);
    let n = cs.len();
    let mut i: usize = n;
    // Scan from the right for a `-` that only digits follow.
    while i > 0
        invariant
            i <= n,
            n == cs@.len(),
            cs@ == point_id@,
            forall|q: int| i <= q < n ==> !splits_at(cs@, q),
        decreases i,
    {
        let k = i - 1;
        if cs[k] == '-' && k + 1 < n {
            let mut all = true;
            let mut j: usize = k + 1;
            while j < n
                invariant
                    k + 1 <= j <= n,
                    n == cs@.len(),
                    all == forall|m: int| k + 1 <= m < j ==> is_digit(#[trigger] cs@[m]),
                decreases n - j,
            {
                let c = cs[j];
                all = all && '0' <= c && c <= '9';
                j = j + 1;
            }
            proof {
                assert(all == all_digits(cs@.subrange(k + 1, n as int))) by {
                    if all {
                        assert forall|m: int| 0 <= m < cs@.subrange(k + 1, n as int).len() implies
                            is_digit(#[trigger] cs@.subrange(k + 1, n as int)[m]) by {
                            assert(cs@.subrange(k + 1, n as int)[m] == cs@[k + 1 + m]);
                        }
                    } else {
                        let m = choose|m: int| k + 1 <= m < n && !is_digit(#[trigger] cs@[m]);
                        assert(cs@.subrange(k + 1, n as int)[m - k - 1] == cs@[m]);
                    }
                }
            }
            if all {
                let mut name: Vec<char> = Vec::new();
                let mut a: usize = 0;
                while a < k
                    invariant
                        a <= k < n,
                        n == cs@.len(),
                        name@ == cs@.subrange(0, a as int),
                    decreases k - a,
                {
                    name.push(cs[a]);
                    a = a + 1;
                    assert(name@ =~= cs@.subrange(0, a as int));
                }
                let mut digits: Vec<char> = Vec::new();
                let mut b: usize = k + 1;
                while b < n
                    invariant
                        k + 1 <= b <= n,
                        n == cs@.len(),
                        digits@ == cs@.subrange(k + 1, b as int),
                    decreases n - b,
                {
                    digits.push(cs[b]);
                    b = b + 1;
                    assert(digits@ =~= cs@.subrange(k + 1, b as int));
                }
                proof {
                    assert(splits_at(cs@, k as int));
                    let p = choose|p: int| splits_at(cs@, p);
                    lemma_split_position_unique(cs@, p, k as int);
                }
                return Some((string_of(&name), digits));
            }
        }
        i = k;
    }
    proof {
        assert forall|p: int| !splits_at(cs@, p) by {
            if 0 <= p && p < n {
            }
        }
    }
    None
}

/// Whether `parse_bacnet_object_id` finds an object id in a point id: the
/// id splits into a name and digits, the name is a known object type and
/// the digits fit in a `u32`.
pub open spec fn has_object_id(point_id: Seq<char>) -> bool {
    match object_id_parts(point_id) {
        Some((name, digits)) => bacnet_object_type_names().contains(name) && parse_u32_spec(digits) is Some,
        None => false,
    }
}

/// The BACnet object that a point id `"{object-type}-{instance}"` names:
/// the type of that name and the instance the digits give.
pub open spec fn object_named_by(point_id: Seq<char>) -> Option<BacnetObjectId> {
    match object_id_parts(point_id) {
        Some((name, digits)) => if has_object_id(point_id) {
            Some(BacnetObjectId { object_type: object_type_named(name), instance: parse_u32_spec(digits).unwrap() })
        } else {
            None
        },
        None => None,
    }
}

/// The BACnet object id that a point id `"{object-type}-{instance}"` names,
/// such as `analog-input-3` or `multi-state-value-12`.
pub fn parse_bacnet_object_id(point_id: &str) -> (r: Option<BacnetObjectId>)
    ensures
        r == object_named_by(point_id@),
        r is Some <==> has_object_id(point_id@),
{
    let (kind_name, digits) = match split_object_id(point_id) {
        Some(parts) => parts,
        None => return None,
    };
    let obj_type = match object_type_from_name(kind_name.as_str()) {
        Some(t) => t,
        None => return None,
    };
    let instance = match parse_u32(&digits) {
        Some(v) => v,
        None => return None,
    };
    Some(BacnetObjectId { object_type: obj_type, instance })
}

/// BACnet event-state code of an alarm type: high limit 3, low limit 4,
/// state fault 1 (fault), any other alarm 2 (offnormal).
pub open spec fn event_code(t: AlarmType) -> u32 {
    match t {
        AlarmType::HighLimit => 3,
        AlarmType::LowLimit => 4,
        AlarmType::StateFault => 1,
        _ => 2,
    }
}

/// BACnet event-state code of an alarm type.
pub fn alarm_type_event_code(alarm_type: &AlarmType) -> (r: u32)
    ensures
        r == event_code(*alarm_type),
{
    match alarm_type {
        AlarmType::HighLimit => 3,
        AlarmType::LowLimit => 4,
        AlarmType::StateFault => 1,
        _ => 2,
    }
}

/// Map an alarm type to the corresponding BACnet event state: the state
/// whose code is `event_code(alarm_type)`.
pub fn alarm_type_to_event_state(alarm_type: &AlarmType) -> (r: EventState)
    ensures
        r == event_state_of_code(event_code(*alarm_type)),
{
    let code = alarm_type_event_code(alarm_type);
    event_state_from_u32(code).unwrap()
}


// ----------------------------------------------------------------
// Device and point search
// ----------------------------------------------------------------

/// Signal kind of a point.
#[derive(Debug, Clone, Copy, PartialEq, Eq, Structural)]
pub enum PointKind {
    Analog,
    Binary,
    Multistate,
}

/// A point of a device profile.
#[derive(Debug, Clone)]
pub struct ProfilePoint {
    pub id: String,
    pub name: String,
    pub kind: PointKind,
}

/// A configured device: its instance id, its profile's name and the
/// profile's points.
#[derive(Debug, Clone)]
pub struct LoadedDevice {
    pub instance_id: String,
    pub profile_name: String,
    pub points: Vec<ProfilePoint>,
}

/// A field matches a search text when, both lowercased, the field contains
/// the search text.
pub open spec fn text_matches(field: Seq<char>, query: Seq<char>) -> bool {
    has_substring(lowercase(field), lowercase(query))
}

/// A device matches a search when the search is empty, or its instance id,
/// its profile name, or the id or name of one of its points matches.
pub open spec fn device_matches(d: LoadedDevice, query: Seq<char>) -> bool {
    ||| query.len() == 0
    ||| text_matches(d.instance_id@, query)
    ||| text_matches(d.profile_name@, query)
    ||| exists|j: int| 0 <= j < d.points@.len() && (text_matches(#[trigger] d.points@[j].id@, query)
        || text_matches(d.points@[j].name@, query))
}

/// A point of a matching device is shown when it has the kind filtered on
/// (if any) and, for a non-empty search, its id or name or its device's
/// instance id or profile name matches.
pub open spec fn point_visible(d: LoadedDevice, p: ProfilePoint, query: Seq<char>, kind_filter: Option<PointKind>) -> bool {
    &&& (kind_filter matches Some(k) ==> p.kind == k)
    &&& (query.len() == 0 || text_matches(p.id@, query) || text_matches(p.name@, query)
        || text_matches(d.instance_id@, query) || text_matches(d.profile_name@, query))
}

/// `(device instance id, point id)` is selected by the search: some point
/// of some matching device is visible and carries these ids. Only devices
/// before `upto_dev`, and points of device `upto_dev` before `upto_pt`, are
/// looked at.
pub open spec fn selected_upto(
    devices: Seq<LoadedDevice>,
    query: Seq<char>,
    kind_filter: Option<PointKind>,
    pair: (Seq<char>, Seq<char>),
    upto_dev: int,
    upto_pt: int,
) -> bool {
    exists|i: int, j: int|
        0 <= i < devices.len() && 0 <= j < devices[i].points@.len()
        && (i < upto_dev || (i == upto_dev && j < upto_pt))
        && device_matches(#[trigger] devices[i], query)
        && point_visible(devices[i], #[trigger] devices[i].points@[j], query, kind_filter)
        && pair == (devices[i].instance_id@, devices[i].points@[j].id@)
}

/// `(device instance id, point id)` is selected by the search.
pub open spec fn selected(
    devices: Seq<LoadedDevice>,
    query: Seq<char>,
    kind_filter: Option<PointKind>,
    pair: (Seq<char>, Seq<char>),
) -> bool {
    selected_upto(devices, query, kind_filter, pair, devices.len() as int, 0)
}

/// Pairs of strings as plain text.
pub open spec fn pairs_view(v: Seq<(String, String)>) -> Seq<(Seq<char>, Seq<char>)> {
    v.map_values(|p: (String, String)| (p.0@, p.1@))
}

/// An empty search without a kind filter selects every point of every
/// device.
pub proof fn law_empty_search_selects_every_point(devices: Seq<LoadedDevice>, query: Seq<char>, i: int, j: int)
    requires
        query.len() == 0,
        0 <= i < devices.len(),
        0 <= j < devices[i].points@.len(),
    ensures
        selected(devices, query, None, (devices[i].instance_id@, devices[i].points@[j].id@)),
{
    assert(device_matches(devices[i], query));
    assert(point_visible(devices[i], devices[i].points@[j], query, None));
}

/// Point `j` of device `i` passes the point search: it has the kind
/// filtered on (if any), and the search is empty or, both lowercased, the
/// point's id or name, or its device's instance id or profile name,
/// contains it.
pub open spec fn point_passes_search(
    devices: Seq<LoadedDevice>,
    query: Seq<char>,
    kind_filter: Option<PointKind>,
    i: int,
    j: int,
) -> bool {
    let d = devices[i];
    let p = d.points@[j];
    &&& 0 <= i < devices.len()
    &&& 0 <= j < d.points@.len()
    &&& (kind_filter matches Some(k) ==> p.kind == k)
    &&& (query.len() == 0 || has_substring(lowercase(p.id@), lowercase(query))
        || has_substring(lowercase(p.name@), lowercase(query))
        || has_substring(lowercase(d.instance_id@), lowercase(query))
        || has_substring(lowercase(d.profile_name@), lowercase(query)))
}

/// The points a search selects are exactly those that pass it, by
/// `(device instance id, point id)`: every passing point is selected
/// (its id matching is enough, so is its name, its device's id or its
/// profile's name), and every selected pair is that of a passing point.
pub proof fn law_point_selection(
    devices: Seq<LoadedDevice>,
    query: Seq<char>,
    kind_filter: Option<PointKind>,
    pair: (Seq<char>, Seq<char>),
)
    ensures
        forall|i: int, j: int| #[trigger] point_passes_search(devices, query, kind_filter, i, j)
            ==> selected(devices, query, kind_filter, (devices[i].instance_id@, devices[i].points@[j].id@)),
        selected(devices, query, kind_filter, pair) ==> exists|i: int, j: int|
            #[trigger] point_passes_search(devices, query, kind_filter, i, j)
            && pair == (devices[i].instance_id@, devices[i].points@[j].id@),
{
    assert forall|i: int, j: int| #[trigger] point_passes_search(devices, query, kind_filter, i, j)
        implies selected(devices, query, kind_filter, (devices[i].instance_id@, devices[i].points@[j].id@)) by {
        let d = devices[i];
        let p = d.points@[j];
        if text_matches(p.id@, query) || text_matches(p.name@, query) {
            assert(0 <= j < d.points@.len());
            assert(text_matches(d.points@[j].id@, query) || text_matches(d.points@[j].name@, query));
        }
        assert(device_matches(d, query));
        assert(point_visible(d, p, query, kind_filter));
        assert(selected_upto(devices, query, kind_filter, (d.instance_id@, p.id@), devices.len() as int, 0));
    }
    if selected(devices, query, kind_filter, pair) {
        let (i, j) = choose|i: int, j: int|
            0 <= i < devices.len() && 0 <= j < devices[i].points@.len()
            && (i < devices.len() as int || (i == devices.len() as int && j < 0))
            && device_matches(#[trigger] devices[i], query)
            && point_visible(devices[i], #[trigger] devices[i].points@[j], query, kind_filter)
            && pair == (devices[i].instance_id@, devices[i].points@[j].id@);
        assert(point_passes_search(devices, query, kind_filter, i, j));
    }
}

/// What "Ack All" reports, and the details of its audit entry: how many
/// alarms were acknowledged (then audited), or the store's error (not
/// audited).
pub fn ack_all_outcome(result: Result<u64, String>) -> (r: (String, Option<String>))
    ensures
        match result {
            Ok(n) => r.0@ == "Acknowledged "@ + dec_digits(n as nat) + " alarm(s)"@ && opt_text(r.1) == Some(
                dec_digits(n as nat) + " alarms"@,
            ),
            Err(e) => r.0@ == "Error: "@ + e@ && r.1 is None,
        },
{
    match result {
        Ok(n) => {
            let mut m = String::from_str("Acknowledged ");
            push_dec(&mut m, n);
            push_str(&mut m, " alarm(s)");
            let mut d = String::new();
            push_dec(&mut d, n);
            push_str(&mut d, " alarms");
            (m, Some(d))
        },
        Err(e) => {
            let mut m = String::from_str("Error: ");
            push_str(&mut m, e.as_str());
            (m, None)
        },
    }
}

/// The points a device's node lists: every point without a search, else
/// those whose id or name matches it.
pub open spec fn node_point_positions(points: Seq<ProfilePoint>, query: Seq<char>) -> Seq<int>
    decreases points.len(),
{
    if points.len() == 0 {
        seq![]
    } else {
        let p = points.last();
        node_point_positions(points.drop_last(), query) + if query.len() == 0 || text_matches(p.id@, query)
            || text_matches(p.name@, query) {
            seq![points.len() - 1]
        } else {
            seq![]
        }
    }
}

/// Whether a device's node is open: when the user opened it, and always
/// while a search is entered.
pub fn node_open(expanded: bool, query: &str) -> (r: bool)
    ensures
        r == (expanded || query@.len() > 0),
{
    expanded || !query.is_empty()
}

/// The kind badge of a point in the alarm browser: its text and class.
pub fn point_kind_badge(k: PointKind) -> (r: (&'static str, &'static str))
    ensures
        (r.0@, r.1@) == match k {
            PointKind::Analog => ("Ana"@, "alarm-point-kind ana"@),
            PointKind::Binary => ("Bin"@, "alarm-point-kind bin"@),
            PointKind::Multistate => ("Ms"@, "alarm-point-kind ms"@),
        },
{
    match k {
        PointKind::Analog => ("Ana", "alarm-point-kind ana"),
        PointKind::Binary => ("Bin", "alarm-point-kind bin"),
        PointKind::Multistate => ("Ms", "alarm-point-kind ms"),
    }
}

/// Whether the lowercased `field` contains `q` (already lowercased).
pub(crate) fn field_matches(field: &String, q: &Vec<char>) -> (r: bool)
    ensures
        r == has_substring(lowercase(field@), q@),
{
    let lower = to_lowercase(field.as_str());
    let cs = chars_of(lower.as_str());
    contains_chars(&cs, q)
}

/// The positions of the points a device's node lists (see
/// `node_point_positions`).
pub fn node_points(dev: &LoadedDevice, query: &str) -> (r: Vec<usize>)
    ensures
        r@.map_values(|i: usize| i as int) == node_point_positions(dev.points@, query@),
{
    let ql = to_lowercase(query);
    let q = chars_of(ql.as_str());
    let pts = &dev.points;
    let mut out: Vec<usize> = Vec::new();
    let mut i: usize = 0;
    while i < pts.len()
        invariant
            i <= pts@.len(),
            q@ == lowercase(query@),
            out@.map_values(|i: usize| i as int) == node_point_positions(pts@.take(i as int), query@),
        decreases pts.len() - i,
    {
        proof {
            assert(pts@.take(i + 1).drop_last() =~= pts@.take(i as int));
            assert(pts@.take(i + 1).last() == pts@[i as int]);
        }
        let ghost before = out@;
        if query.is_empty() || field_matches(&pts[i].id, &q) || field_matches(&pts[i].name, &q) {
            out.push(i);
            assert(out@.map_values(|i: usize| i as int) =~= before.map_values(|i: usize| i as int) + seq![i as int]);
        } else {
            assert(out@.map_values(|i: usize| i as int) =~= before.map_values(|i: usize| i as int) + Seq::<int>::empty());
        }
        i = i + 1;
    }
    assert(pts@.take(pts@.len() as int) =~= pts@);
    out
}

/// Whether a device matches the search text `query`.
pub fn device_matches_alarm(dev: &LoadedDevice, query: &str) -> (r: bool)
    ensures
        r == device_matches(*dev, query@),
{
    if query.is_empty() {
        return true;
    }
    let ql = to_lowercase(query);
    let q = chars_of(ql.as_str());
    if field_matches(&dev.instance_id, &q) {
        return true;
    }
    if field_matches(&dev.profile_name, &q) {
        return true;
    }
    let mut j: usize = 0;
    while j < dev.points.len()
        invariant
            j <= dev.points@.len(),
            q@ == lowercase(query@),
            query@.len() != 0,
            forall|k: int| 0 <= k < j ==> !(text_matches(#[trigger] dev.points@[k].id@, query@)
                || text_matches(dev.points@[k].name@, query@)),
        decreases dev.points.len() - j,
    {
        let id_hit = field_matches(&dev.points[j].id, &q);
        let name_hit = field_matches(&dev.points[j].name, &q);
        if id_hit || name_hit {
            assert(text_matches(dev.points@[j as int].id@, query@) || text_matches(dev.points@[j as int].name@, query@));
            return true;
        }
        assert forall|k: int| 0 <= k < j + 1 implies !(text_matches(#[trigger] dev.points@[k].id@, query@)
            || text_matches(dev.points@[k].name@, query@)) by {
            if k == j {
                assert(!(text_matches(dev.points@[j as int].id@, query@) || text_matches(dev.points@[j as int].name@, query@)));
            }
        }
        j = j + 1;
    }
    false
}

/// Whether `(a, b)` is already among the pairs.
fn has_pair(v: &Vec<(String, String)>, a: &String, b: &String) -> (r: bool)
    ensures
        r == pairs_view(v@).contains((a@, b@)),
{
    let mut i: usize = 0;
    while i < v.len()
        invariant
            i <= v@.len(),
            forall|k: int| 0 <= k < i ==> pairs_view(v@)[k] != (a@, b@),
        decreases v.len() - i,
    {
        if v[i].0 == *a && v[i].1 == *b {
            assert(pairs_view(v@)[i as int] == (a@, b@));
            return true;
        }
        i = i + 1;
    }
    false
}

/// All `(device instance id, point id)` pairs selected by the search text
/// and the optional kind filter, each once.
pub fn collect_visible_points(
    devices: &Vec<LoadedDevice>,
    query: &str,
    kind_filter: Option<PointKind>,
) -> (r: Vec<(String, String)>)
    ensures
        pairs_view(r@).no_duplicates(),
        forall|pair: (Seq<char>, Seq<char>)|
            pairs_view(r@).contains(pair) <==> selected(devices@, query@, kind_filter, pair),
{
    let mut set: Vec<(String, String)> = Vec::new();
    let has_filter = !query.is_empty();
    let ql = to_lowercase(query);
    let q = chars_of(ql.as_str());
    let mut i: usize = 0;
    while i < devices.len()
        invariant
            i <= devices@.len(),
            has_filter == (query@.len() != 0),
            q@ == lowercase(query@),
            pairs_view(set@).no_duplicates(),
            forall|pair: (Seq<char>, Seq<char>)|
                pairs_view(set@).contains(pair) <==> selected_upto(devices@, query@, kind_filter, pair, i as int, 0),
        decreases devices.len() - i,
    {
        let dev = &devices[i];
        if !device_matches_alarm(dev, query) {
            proof {
                assert forall|pair: (Seq<char>, Seq<char>)|
                    selected_upto(devices@, query@, kind_filter, pair, i as int, 0)
                    <==> selected_upto(devices@, query@, kind_filter, pair, i + 1, 0) by {
                    if selected_upto(devices@, query@, kind_filter, pair, i + 1, 0) {
                        let (a, b) = choose|a: int, b: int|
                            0 <= a < devices@.len() && 0 <= b < devices@[a].points@.len()
                            && (a < i + 1 || (a == i + 1 && b < 0))
                            && device_matches(#[trigger] devices@[a], query@)
                            && point_visible(devices@[a], #[trigger] devices@[a].points@[b], query@, kind_filter)
                            && pair == (devices@[a].instance_id@, devices@[a].points@[b].id@);
                        assert(a != i);
                    }
                }
            }
            i = i + 1;
            continue;
        }
        let mut j: usize = 0;
        while j < dev.points.len()
            invariant
                i < devices@.len(),
                dev == devices@[i as int],
                device_matches(*dev, query@),
                j <= dev.points@.len(),
                has_filter == (query@.len() != 0),
                q@ == lowercase(query@),
                pairs_view(set@).no_duplicates(),
                forall|pair: (Seq<char>, Seq<char>)|
                    pairs_view(set@).contains(pair) <==> selected_upto(devices@, query@, kind_filter, pair, i as int, j as int),
            decreases dev.points.len() - j,
        {
            let pt = &dev.points[j];
            let kind_ok = match kind_filter {
                Some(k) => pt.kind == k,
                None => true,
            };
            let shown = kind_ok && (!has_filter || field_matches(&pt.id, &q) || field_matches(&pt.name, &q)
                || field_matches(&dev.instance_id, &q) || field_matches(&dev.profile_name, &q));
            assert(shown == point_visible(*dev, dev.points@[j as int], query@, kind_filter));
            let ghost pair_j = (dev.instance_id@, dev.points@[j as int].id@);
            assert(pt.id@ == dev.points@[j as int].id@);
            assert(pair_j == (dev.instance_id@, pt.id@));
            let ghost old_set = pairs_view(set@);
            if shown {
                if !has_pair(&set, &dev.instance_id, &pt.id) {
                    set.push((dev.instance_id.clone(), pt.id.clone()));
                    proof {
                        assert(pairs_view(set@) =~= old_set.push(pair_j));
                        assert(pairs_view(set@)[old_set.len() as int] == pair_j);
                    }
                }
            }
            proof {
                assert(shown ==> pairs_view(set@).contains(pair_j));
                assert(forall|x: (Seq<char>, Seq<char>)| pairs_view(set@).contains(x) <==> (old_set.contains(x) || (shown && x == pair_j))) by {
                    if shown && !old_set.contains(pair_j) {
                        assert forall|x: (Seq<char>, Seq<char>)| pairs_view(set@).contains(x) <==> (old_set.contains(x) || x == pair_j) by {
                            if pairs_view(set@).contains(x) {
                                let k = choose|k: int| 0 <= k < pairs_view(set@).len() && pairs_view(set@)[k] == x;
                                if k < old_set.len() {
                                    assert(old_set[k] == x);
                                }
                            }
                            if old_set.contains(x) {
                                let k = choose|k: int| 0 <= k < old_set.len() && old_set[k] == x;
                                assert(pairs_view(set@)[k] == x);
                            }
                            if x == pair_j {
                                assert(pairs_view(set@)[old_set.len() as int] == x);
                            }
                        }
                    }
                }
                assert forall|pair: (Seq<char>, Seq<char>)|
                    #[trigger] pairs_view(set@).contains(pair) <==> selected_upto(devices@, query@, kind_filter, pair, i as int, j + 1) by {
                    assert(pairs_view(set@).contains(pair) <==> (old_set.contains(pair) || (shown && pair == pair_j)));
                    assert(old_set.contains(pair) <==> selected_upto(devices@, query@, kind_filter, pair, i as int, j as int));
                    if selected_upto(devices@, query@, kind_filter, pair, i as int, j as int) {
                        let (a, b) = choose|a: int, b: int|
                            0 <= a < devices@.len() && 0 <= b < devices@[a].points@.len()
                            && (a < i || (a == i && b < j))
                            && device_matches(#[trigger] devices@[a], query@)
                            && point_visible(devices@[a], #[trigger] devices@[a].points@[b], query@, kind_filter)
                            && pair == (devices@[a].instance_id@, devices@[a].points@[b].id@);
                        assert(a < i || (a == i && b < j + 1));
                        assert(device_matches(devices@[a], query@));
                        assert(point_visible(devices@[a], devices@[a].points@[b], query@, kind_filter));
                    }
                    if selected_upto(devices@, query@, kind_filter, pair, i as int, j + 1)
                        && !selected_upto(devices@, query@, kind_filter, pair, i as int, j as int) {
                        let (a, b) = choose|a: int, b: int|
                            0 <= a < devices@.len() && 0 <= b < devices@[a].points@.len()
                            && (a < i || (a == i && b < j + 1))
                            && device_matches(#[trigger] devices@[a], query@)
                            && point_visible(devices@[a], #[trigger] devices@[a].points@[b], query@, kind_filter)
                            && pair == (devices@[a].instance_id@, devices@[a].points@[b].id@);
                        if a < i || (a == i && b < j) {
                            assert(device_matches(devices@[a], query@));
                            assert(point_visible(devices@[a], devices@[a].points@[b], query@, kind_filter));
                            assert(false);
                        }
                        assert(a == i && b == j);
                        assert(pair == pair_j);
                        assert(shown);
                    }
                    if pair == pair_j && shown {
                        assert(device_matches(devices@[i as int], query@));
                        assert(point_visible(devices@[i as int], devices@[i as int].points@[j as int], query@, kind_filter));
                        assert(selected_upto(devices@, query@, kind_filter, pair, i as int, j + 1));
                    }
                }
            }
            j = j + 1;
        }
        proof {
            assert forall|pair: (Seq<char>, Seq<char>)|
                selected_upto(devices@, query@, kind_filter, pair, i as int, j as int)
                <==> selected_upto(devices@, query@, kind_filter, pair, i + 1, 0) by {
                if selected_upto(devices@, query@, kind_filter, pair, i as int, j as int) {
                    let (a, b) = choose|a: int, b: int|
                        0 <= a < devices@.len() && 0 <= b < devices@[a].points@.len()
                        && (a < i || (a == i && b < j))
                        && device_matches(#[trigger] devices@[a], query@)
                        && point_visible(devices@[a], #[trigger] devices@[a].points@[b], query@, kind_filter)
                        && pair == (devices@[a].instance_id@, devices@[a].points@[b].id@);
                    assert(a < i + 1 || (a == i + 1 && b < 0));
                }
                if selected_upto(devices@, query@, kind_filter, pair, i + 1, 0) {
                    let (a, b) = choose|a: int, b: int|
                        0 <= a < devices@.len() && 0 <= b < devices@[a].points@.len()
                        && (a < i + 1 || (a == i + 1 && b < 0))
                        && device_matches(#[trigger] devices@[a], query@)
                        && point_visible(devices@[a], #[trigger] devices@[a].points@[b], query@, kind_filter)
                        && pair == (devices@[a].instance_id@, devices@[a].points@[b].id@);
                    assert(a < i || (a == i && b < j));
                }
            }
        }
        i = i + 1;
    }
    set
}

// ----------------------------------------------------------------
// Acknowledging and shelving
// ----------------------------------------------------------------

/// The BACnet device instance of a device id `bacnet-{instance}`.
pub open spec fn bacnet_instance_of(dev_id: Seq<char>) -> Option<u32> {
    if dev_id.len() >= 7 && dev_id.take(7) == "bacnet-"@ {
        parse_u32_spec(dev_id.skip(7))
    } else {
        None
    }
}

/// The BACnet device instance of a device id (see `bacnet_instance_of`).
pub fn bacnet_device_instance(dev_id: &str) -> (r: Option<u32>)
    ensures
        r == bacnet_instance_of(dev_id@),
{
    proof {
        reveal_strlit("bacnet-");
    }
    let cs = chars_of(dev_id);
    let prefix = chars_of("bacnet-");
    if cs.len() < 7 {
        return None;
    }
    let mut i: usize = 0;
    while i < 7
        invariant
            i <= 7,
            cs@.len() >= 7,
            prefix@ == "bacnet-"@,
            prefix@.len() == 7,
            cs@ == dev_id@,
            forall|k: int| 0 <= k < i ==> cs@[k] == prefix@[k],
        decreases 7 - i,
    {
        if cs[i] != prefix[i] {
            assert(cs@.take(7)[i as int] != "bacnet-"@[i as int]);
            return None;
        }
        i = i + 1;
    }
    assert(cs@.take(7) =~= "bacnet-"@);
    let mut rest: Vec<char> = Vec::new();
    let mut k: usize = 7;
    while k < cs.len()
        invariant
            7 <= k <= cs@.len(),
            rest@ == cs@.subrange(7, k as int),
        decreases cs.len() - k,
    {
        rest.push(cs[k]);
        k = k + 1;
        assert(rest@ =~= cs@.subrange(7, k as int));
    }
    assert(rest@ =~= cs@.skip(7));
    parse_u32(&rest)
}

/// What acknowledging an alarm also asks of the BACnet device.
pub enum RemoteAck {
    /// The device is not a BACnet device: nothing more.
    NotBacnet,
    /// The point id names no BACnet object: report it.
    UnparsedPoint,
    /// Acknowledge this object on the device with this instance, with the
    /// event state of the alarm's type.
    Ack { instance: u32, object: BacnetObjectId, event_state: EventState },
}

/// The BACnet side of an acknowledgement: for a `bacnet-{instance}` device,
/// the object the point id names and the alarm type's event state.
pub fn remote_ack(dev_id: &str, point_id: &str, alarm_type: &AlarmType) -> (r: RemoteAck)
    ensures
        match bacnet_instance_of(dev_id@) {
            None => r is NotBacnet,
            Some(inst) => if has_object_id(point_id@) {
                r == (RemoteAck::Ack {
                    instance: inst,
                    object: object_named_by(point_id@).unwrap(),
                    event_state: event_state_of_code(event_code(*alarm_type)),
                })
            } else {
                r is UnparsedPoint
            },
        },
{
    match bacnet_device_instance(dev_id) {
        None => RemoteAck::NotBacnet,
        Some(instance) => match parse_bacnet_object_id(point_id) {
            Some(object) => RemoteAck::Ack { instance, object, event_state: alarm_type_to_event_state(alarm_type) },
            None => RemoteAck::UnparsedPoint,
        },
    }
}

/// The audit entry of an acknowledgement: the resource `device/point` and
/// the details `config_id={id}`.
pub fn ack_audit_texts(dev_id: &str, point_id: &str, config_id: i64) -> (r: (String, String))
    ensures
        r.0@ == dev_id@ + "/"@ + point_id@,
        r.1@ == "config_id="@ + int_text(config_id as int),
{
    let mut res = String::from_str(dev_id);
    push_str(&mut res, "/");
    push_str(&mut res, point_id);
    let mut det = String::from_str("config_id=");
    push_int(&mut det, config_id);
    (res, det)
}

/// The length in milliseconds of a shelving duration choice; none for an
/// indefinite shelve.
pub open spec fn shelve_length(choice: Seq<char>) -> Option<int> {
    if choice == "1h"@ {
        Some(3_600_000int)
    } else if choice == "4h"@ {
        Some(4 * 3_600_000int)
    } else if choice == "8h"@ {
        Some(8 * 3_600_000int)
    } else if choice == "24h"@ {
        Some(24 * 3_600_000int)
    } else {
        None
    }
}

/// When a shelve chosen at `now_ms` expires: that long after now, or never.
pub fn shelve_expiry_at(choice: &str, now_ms: i64) -> (r: Option<i64>)
    requires
        now_ms <= i64::MAX - 24 * 3_600_000,
    ensures
        match shelve_length(choice@) {
            Some(len) => r == Some((now_ms + len) as i64),
            None => r is None,
        },
{
    if str_eq(choice, "1h") {
        Some(now_ms + 3_600_000)
    } else if str_eq(choice, "4h") {
        Some(now_ms + 4 * 3_600_000)
    } else if str_eq(choice, "8h") {
        Some(now_ms + 8 * 3_600_000)
    } else if str_eq(choice, "24h") {
        Some(now_ms + 24 * 3_600_000)
    } else {
        None
    }
}

/// What a shelve applies to: its alarm configuration, else its device,
/// else everything.
pub fn shelve_target_label(config_id: Option<i64>, device_id: &Option<String>) -> (r: String)
    ensures
        r@ == match config_id {
            Some(c) => "Config #"@ + int_text(c as int),
            None => match *device_id {
                Some(d) => "Device: "@ + d@,
                None => "All"@,
            },
        },
{
    match config_id {
        Some(c) => {
            let mut out = String::from_str("Config #");
            push_int(&mut out, c);
            out
        },
        None => match device_id {
            Some(d) => {
                let mut out = String::from_str("Device: ");
                push_str(&mut out, d.as_str());
                out
            },
            None => String::from_str("All"),
        },
    }
}

/// How long a shelve has left at `now_ms`: `Indefinite` without an expiry,
/// `Expiring...` once due, else whole hours and minutes (minutes alone
/// under an hour).
pub open spec fn remaining_text(expires_ms: Option<i64>, now_ms: int) -> Seq<char> {
    match expires_ms {
        None => "Indefinite"@,
        Some(exp) => {
            let rem = exp - now_ms;
            if rem <= 0 {
                "Expiring..."@
            } else if rem / 3_600_000 > 0 {
                int_text(rem / 3_600_000) + "h "@ + int_text((rem % 3_600_000) / 60_000) + "m"@
            } else {
                int_text((rem % 3_600_000) / 60_000) + "m"@
            }
        },
    }
}

/// How long a shelve has left (see `remaining_text`).
pub fn shelve_remaining(expires_ms: Option<i64>, now_ms: i64) -> (r: String)
    requires
        match expires_ms {
            Some(exp) => i64::MIN <= exp - now_ms <= i64::MAX,
            None => true,
        },
    ensures
        r@ == remaining_text(expires_ms, now_ms as int),
{
    match expires_ms {
        None => String::from_str("Indefinite"),
        Some(exp) => {
            let rem = exp - now_ms;
            if rem <= 0 {
                String::from_str("Expiring...")
            } else {
                let hours = rem / 3_600_000;
                let mins = (rem % 3_600_000) / 60_000;
                let mut out = String::new();
                if hours > 0 {
                    push_int(&mut out, hours);
                    push_str(&mut out, "h ");
                    push_int(&mut out, mins);
                    push_str(&mut out, "m");
                } else {
                    push_int(&mut out, mins);
                    push_str(&mut out, "m");
                }
                out
            }
        },
    }
}

} // verus!
