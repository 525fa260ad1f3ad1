//! The add-alarm form's parameters: which fields an alarm type asks for,
//! and how the whole-number and text fields are read and checked. The
//! decimal fields (limit, deadband, fault value) are read by the caller
//! before these, as the form reads them first.

use vstd::prelude::*;

use crate::components::alarm_view::{LoadedDevice, ProfilePoint};
use crate::components::coverage_view::names_view;
use crate::numparse::{parse_i64, parse_i64_spec, parse_u64, parse_u64_spec};
use crate::text::{
    chars_of, dec_digits, int_text, law_split_on_pieces, pieces_view, push_dec, push_int, push_str, split_chars, split_on,
    str_eq, string_of, trim,
    trimmed,
};

verus! {

/// The inputs of the add-alarm form, as typed.
pub struct AlarmFormInput {
    pub delay: String,
    pub timeout: String,
    /// `true` or `false`: the value of a state-change alarm.
    pub alarm_value: String,
    /// Comma-separated state numbers of a multistate alarm.
    pub alarm_states: String,
    pub fb_device: String,
    pub fb_point: String,
}

/// The checked whole-number and text parameters of an alarm, by type.
#[derive(Debug, PartialEq)]
pub enum AlarmParamsPlan {
    HighLimit { delay_secs: u64 },
    LowLimit { delay_secs: u64 },
    StateFault { delay_secs: u64 },
    Stale { timeout_secs: u64 },
    StateChange { alarm_value: bool, delay_secs: u64 },
    MultiStateAlarm { alarm_states: Vec<i64>, delay_secs: u64 },
    CommandMismatch { feedback_device_id: String, feedback_point_id: String, delay_secs: u64 },
}

/// The parameters as plain values.
pub enum PlanView {
    HighLimit { delay_secs: u64 },
    LowLimit { delay_secs: u64 },
    StateFault { delay_secs: u64 },
    Stale { timeout_secs: u64 },
    StateChange { alarm_value: bool, delay_secs: u64 },
    MultiStateAlarm { alarm_states: Seq<i64>, delay_secs: u64 },
    CommandMismatch { feedback_device_id: Seq<char>, feedback_point_id: Seq<char>, delay_secs: u64 },
}

/// The plain form of checked parameters.
pub open spec fn plan_view(p: AlarmParamsPlan) -> PlanView {
    match p {
        AlarmParamsPlan::HighLimit { delay_secs } => PlanView::HighLimit { delay_secs },
        AlarmParamsPlan::LowLimit { delay_secs } => PlanView::LowLimit { delay_secs },
        AlarmParamsPlan::StateFault { delay_secs } => PlanView::StateFault { delay_secs },
        AlarmParamsPlan::Stale { timeout_secs } => PlanView::Stale { timeout_secs },
        AlarmParamsPlan::StateChange { alarm_value, delay_secs } => PlanView::StateChange { alarm_value, delay_secs },
        AlarmParamsPlan::MultiStateAlarm { alarm_states, delay_secs } => PlanView::MultiStateAlarm {
            alarm_states: alarm_states@,
            delay_secs,
        },
        AlarmParamsPlan::CommandMismatch { feedback_device_id, feedback_point_id, delay_secs } => PlanView::CommandMismatch {
            feedback_device_id: feedback_device_id@,
            feedback_point_id: feedback_point_id@,
            delay_secs,
        },
    }
}

/// A whole-number field: its value, or the message naming the field.
pub open spec fn whole_field(s: Seq<char>, name: Seq<char>) -> Result<u64, Seq<char>> {
    match parse_u64_spec(s) {
        Some(v) => Ok(v),
        None => Err("Invalid "@ + name + ": must be a positive integer"@),
    }
}

/// The state numbers of a comma-separated list: each piece, trimmed, that
/// reads as a whole number; the others are skipped.
pub open spec fn state_numbers(pieces: Seq<Seq<char>>) -> Seq<i64>
    decreases pieces.len(),
{
    if pieces.len() == 0 {
        seq![]
    } else {
        state_numbers(pieces.drop_last()) + match parse_i64_spec(trimmed(pieces.last())) {
            Some(v) => seq![v],
            None => seq![],
        }
    }
}

/// The state numbers of a list of pieces are those of its parts, in order.
pub proof fn lemma_state_numbers_concat(a: Seq<Seq<char>>, b: Seq<Seq<char>>)
    ensures
        state_numbers(a + b) == state_numbers(a) + state_numbers(b),
    decreases b.len(),
{
    if b.len() == 0 {
        assert(a + b =~= a);
        assert(state_numbers(a) + state_numbers(b) =~= state_numbers(a));
    } else {
        lemma_state_numbers_concat(a, b.drop_last());
        assert((a + b).drop_last() =~= a + b.drop_last());
        assert((a + b).last() == b.last());
        assert(state_numbers(a + b) =~= state_numbers(a) + state_numbers(b));
    }
}

/// A multistate alarm's states are read entry by entry: the states of two
/// comma-joined lists are those of the first then those of the second; an
/// entry without a comma gives its number (read after trimming white
/// space) when it reads as one, and nothing otherwise.
pub proof fn law_states_read_entry_by_entry(a: Seq<char>, b: Seq<char>)
    ensures
        state_numbers(split_on(a + seq![','] + b, ',')) == state_numbers(split_on(a, ',')) + state_numbers(
            split_on(b, ','),
        ),
        !a.contains(',') ==> state_numbers(split_on(a, ',')) == match parse_i64_spec(trimmed(a)) {
            Some(v) => seq![v],
            None => Seq::<i64>::empty(),
        },
{
    law_split_on_pieces(a, b, ',');
    lemma_state_numbers_concat(split_on(a, ','), split_on(b, ','));
    if !a.contains(',') {
        let one = seq![a];
        assert(one.drop_last() =~= Seq::<Seq<char>>::empty());
        assert(state_numbers(one.drop_last()) =~= Seq::<i64>::empty());
        assert(state_numbers(one) =~= match parse_i64_spec(trimmed(a)) {
            Some(v) => seq![v],
            None => Seq::<i64>::empty(),
        });
    }
}

/// What the form's inputs give for an alarm of type `typ`: the checked
/// parameters, or the first message in the order the form checks them.
pub open spec fn alarm_plan(
    typ: Seq<char>,
    delay: Seq<char>,
    timeout: Seq<char>,
    alarm_value: Seq<char>,
    alarm_states: Seq<char>,
    fb_device: Seq<char>,
    fb_point: Seq<char>,
) -> Result<PlanView, Seq<char>> {
    let d = whole_field(delay, "delay"@);
    if typ == "high_limit"@ {
        match d { Ok(v) => Ok(PlanView::HighLimit { delay_secs: v }), Err(e) => Err(e) }
    } else if typ == "low_limit"@ {
        match d { Ok(v) => Ok(PlanView::LowLimit { delay_secs: v }), Err(e) => Err(e) }
    } else if typ == "state_fault"@ {
        match d { Ok(v) => Ok(PlanView::StateFault { delay_secs: v }), Err(e) => Err(e) }
    } else if typ == "stale"@ {
        match whole_field(timeout, "timeout"@) {
            Ok(v) => Ok(PlanView::Stale { timeout_secs: v }),
            Err(e) => Err(e),
        }
    } else if typ == "state_change"@ {
        match d {
            Ok(v) => Ok(PlanView::StateChange { alarm_value: alarm_value == "true"@, delay_secs: v }),
            Err(e) => Err(e),
        }
    } else if typ == "multi_state_alarm"@ {
        let states = state_numbers(split_on(alarm_states, ','));
        if states.len() == 0 {
            Err("Enter at least one alarm state number."@)
        } else {
            match d {
                Ok(v) => Ok(PlanView::MultiStateAlarm { alarm_states: states, delay_secs: v }),
                Err(e) => Err(e),
            }
        }
    } else if typ == "command_mismatch"@ {
        if fb_device.len() == 0 || fb_point.len() == 0 {
            Err("Select feedback device and point."@)
        } else {
            match d {
                Ok(v) => Ok(PlanView::CommandMismatch { feedback_device_id: fb_device, feedback_point_id: fb_point, delay_secs: v }),
                Err(e) => Err(e),
            }
        }
    } else {
        Err("Unknown alarm type."@)
    }
}

/// A state-change alarm alarms on `true` exactly when the form's Alarm When
/// field reads `true`, and on `false` for any other text; it is refused
/// only when the delay is not a whole number.
pub proof fn law_state_change_alarm_value(
    delay: Seq<char>,
    timeout: Seq<char>,
    alarm_value: Seq<char>,
    alarm_states: Seq<char>,
    fb_device: Seq<char>,
    fb_point: Seq<char>,
)
    ensures
        match alarm_plan("state_change"@, delay, timeout, alarm_value, alarm_states, fb_device, fb_point) {
            Ok(p) => p matches PlanView::StateChange { alarm_value: on, delay_secs: d }
                && (on <==> alarm_value == "true"@) && parse_u64_spec(delay) == Some(d),
            Err(_) => parse_u64_spec(delay) is None,
        },
{
    reveal_strlit("state_change");
    reveal_strlit("high_limit");
    reveal_strlit("low_limit");
    reveal_strlit("state_fault");
    reveal_strlit("stale");
    assert("state_change"@.len() != "high_limit"@.len());
    assert("state_change"@.len() != "low_limit"@.len());
    assert("state_change"@.len() != "state_fault"@.len());
    assert("state_change"@.len() != "stale"@.len());
}

/// Each alarm type gives parameters of its own kind, with the delay (or,
/// for a stale alarm, the timeout) the form reads: a whole-number field
/// that does not read gives an error, never other parameters.
pub proof fn law_alarm_plan_kind_follows_type(
    typ: Seq<char>,
    delay: Seq<char>,
    timeout: Seq<char>,
    alarm_value: Seq<char>,
    alarm_states: Seq<char>,
    fb_device: Seq<char>,
    fb_point: Seq<char>,
)
    ensures
        alarm_plan(typ, delay, timeout, alarm_value, alarm_states, fb_device, fb_point) matches Ok(p) ==> {
            ||| typ == "high_limit"@ && (p matches PlanView::HighLimit { delay_secs: d } && parse_u64_spec(delay) == Some(d))
            ||| typ == "low_limit"@ && (p matches PlanView::LowLimit { delay_secs: d } && parse_u64_spec(delay) == Some(d))
            ||| typ == "state_fault"@ && (p matches PlanView::StateFault { delay_secs: d } && parse_u64_spec(delay) == Some(d))
            ||| typ == "stale"@ && (p matches PlanView::Stale { timeout_secs: d } && parse_u64_spec(timeout) == Some(d))
            ||| typ == "state_change"@ && (p matches PlanView::StateChange { alarm_value: on, delay_secs: d }
                && parse_u64_spec(delay) == Some(d) && (on <==> alarm_value == "true"@))
            ||| typ == "multi_state_alarm"@ && (p matches PlanView::MultiStateAlarm { alarm_states: st, delay_secs: d }
                && parse_u64_spec(delay) == Some(d) && st.len() > 0)
            ||| typ == "command_mismatch"@ && (p matches PlanView::CommandMismatch {
                feedback_device_id: dev, feedback_point_id: pt, delay_secs: d }
                && parse_u64_spec(delay) == Some(d) && dev == fb_device && pt == fb_point && dev.len() > 0 && pt.len() > 0)
        },
        typ != "high_limit"@ && typ != "low_limit"@ && typ != "state_fault"@ && typ != "stale"@
            && typ != "state_change"@ && typ != "multi_state_alarm"@ && typ != "command_mismatch"@
            ==> alarm_plan(typ, delay, timeout, alarm_value, alarm_states, fb_device, fb_point) is Err,
{
}

/// Reads a whole-number field (see `whole_field`).
fn read_whole(s: &String, name: &str) -> (r: Result<u64, String>)
    ensures
        match r {
            Ok(v) => whole_field(s@, name@) == Ok::<u64, Seq<char>>(v),
            Err(e) => whole_field(s@, name@) == Err::<u64, Seq<char>>(e@),
        },
{
    let cs = chars_of(s.as_str());
    match parse_u64(&cs) {
        Some(v) => Ok(v),
        None => {
            let mut m = String::from_str("Invalid ");
            push_str(&mut m, name);
            push_str(&mut m, ": must be a positive integer");
            Err(m)
        },
    }
}

/// Reads the state numbers of a comma-separated list (see
/// `state_numbers`).
pub fn read_states(s: &str) -> (r: Vec<i64>)
    ensures
        r@ == state_numbers(split_on(s@, ',')),
{
    let cs = chars_of(s);
    let pieces = split_chars(&cs, ',');
    let ghost pv = pieces_view(pieces@);
    let mut out: Vec<i64> = Vec::new();
    let mut i: usize = 0;
    while i < pieces.len()
        invariant
            i <= pieces@.len(),
            pv == pieces_view(pieces@),
            pv == split_on(s@, ','),
            out@ == state_numbers(pv.take(i as int)),
        decreases pieces.len() - i,
    {
        proof {
            assert(pv.take(i + 1).drop_last() =~= pv.take(i as int));
            assert(pv.take(i + 1).last() == pv[i as int]);
        }
        let piece = string_of(&pieces[i]);
        assert(piece@ == pv[i as int]);
        let t = trim(piece.as_str());
        let tc = chars_of(t.as_str());
        let ghost before = out@;
        match parse_i64(&tc) {
            Some(v) => {
                out.push(v);
                assert(out@ =~= before + seq![v]);
            },
            None => {
                assert(out@ =~= before + Seq::<i64>::empty());
            },
        }
        i = i + 1;
    }
    assert(pv.take(pieces@.len() as int) =~= pv);
    out
}

/// Checks the form's whole-number and text fields for an alarm of type
/// `typ` (see `alarm_plan`).
pub fn build_alarm_plan(typ: &str, input: &AlarmFormInput) -> (r: Result<AlarmParamsPlan, String>)
    ensures
        match r {
            Ok(p) => alarm_plan(typ@, input.delay@, input.timeout@, input.alarm_value@, input.alarm_states@, input.fb_device@, input.fb_point@)
                == Ok::<PlanView, Seq<char>>(plan_view(p)),
            Err(e) => alarm_plan(typ@, input.delay@, input.timeout@, input.alarm_value@, input.alarm_states@, input.fb_device@, input.fb_point@)
                == Err::<PlanView, Seq<char>>(e@),
        },
{
    if str_eq(typ, "high_limit") {
        match read_whole(&input.delay, "delay") {
            Ok(v) => Ok(AlarmParamsPlan::HighLimit { delay_secs: v }),
            Err(e) => Err(e),
        }
    } else if str_eq(typ, "low_limit") {
        match read_whole(&input.delay, "delay") {
            Ok(v) => Ok(AlarmParamsPlan::LowLimit { delay_secs: v }),
            Err(e) => Err(e),
        }
    } else if str_eq(typ, "state_fault") {
        match read_whole(&input.delay, "delay") {
            Ok(v) => Ok(AlarmParamsPlan::StateFault { delay_secs: v }),
            Err(e) => Err(e),
        }
    } else if str_eq(typ, "stale") {
        match read_whole(&input.timeout, "timeout") {
            Ok(v) => Ok(AlarmParamsPlan::Stale { timeout_secs: v }),
            Err(e) => Err(e),
        }
    } else if str_eq(typ, "state_change") {
        let av = str_eq(input.alarm_value.as_str(), "true");
        match read_whole(&input.delay, "delay") {
            Ok(v) => Ok(AlarmParamsPlan::StateChange { alarm_value: av, delay_secs: v }),
            Err(e) => Err(e),
        }
    } else if str_eq(typ, "multi_state_alarm") {
        let states = read_states(input.alarm_states.as_str());
        if states.len() == 0 {
            return Err(String::from_str("Enter at least one alarm state number."));
        }
        match read_whole(&input.delay, "delay") {
            Ok(v) => Ok(AlarmParamsPlan::MultiStateAlarm { alarm_states: states, delay_secs: v }),
            Err(e) => Err(e),
        }
    } else if str_eq(typ, "command_mismatch") {
        if input.fb_device.unicode_len() == 0 || input.fb_point.unicode_len() == 0 {
            return Err(String::from_str("Select feedback device and point."));
        }
        match read_whole(&input.delay, "delay") {
            Ok(v) => Ok(AlarmParamsPlan::CommandMismatch {
                feedback_device_id: input.fb_device.clone(),
                feedback_point_id: input.fb_point.clone(),
                delay_secs: v,
            }),
            Err(e) => Err(e),
        }
    } else {
        Err(String::from_str("Unknown alarm type."))
    }
}

/// The fields the form shows for an alarm type, in order.
#[derive(Debug, Clone, Copy, PartialEq, Eq, Structural)]
pub enum FormField {
    Limit,
    Deadband,
    Delay,
    FaultValue,
    Timeout,
    AlarmWhen,
    States,
    FeedbackDevice,
    FeedbackPoint,
}

/// The fields the form shows for an alarm type: limits get a limit, a
/// deadband and a delay; a state fault its fault value and a delay; a
/// stale alarm its timeout; a state change the value to alarm on and a
/// delay; a multistate alarm its states and a delay; a command mismatch
/// its feedback device and point and a delay; other types none.
pub open spec fn form_fields(typ: Seq<char>) -> Seq<FormField> {
    if typ == "high_limit"@ || typ == "low_limit"@ {
        seq![FormField::Limit, FormField::Deadband, FormField::Delay]
    } else if typ == "state_fault"@ {
        seq![FormField::FaultValue, FormField::Delay]
    } else if typ == "stale"@ {
        seq![FormField::Timeout]
    } else if typ == "state_change"@ {
        seq![FormField::AlarmWhen, FormField::Delay]
    } else if typ == "multi_state_alarm"@ {
        seq![FormField::States, FormField::Delay]
    } else if typ == "command_mismatch"@ {
        seq![FormField::FeedbackDevice, FormField::FeedbackPoint, FormField::Delay]
    } else {
        seq![]
    }
}

/// The form's check of an alarm type reads only the fields the form shows
/// for that type: two inputs that agree on those fields give the same
/// parameters or the same message, however the other fields differ (a
/// malformed field that the type does not show never makes it fail).
pub proof fn law_alarm_plan_reads_only_shown_fields(
    typ: Seq<char>,
    delay1: Seq<char>,
    timeout1: Seq<char>,
    alarm_value1: Seq<char>,
    alarm_states1: Seq<char>,
    fb_device1: Seq<char>,
    fb_point1: Seq<char>,
    delay2: Seq<char>,
    timeout2: Seq<char>,
    alarm_value2: Seq<char>,
    alarm_states2: Seq<char>,
    fb_device2: Seq<char>,
    fb_point2: Seq<char>,
)
    requires
        form_fields(typ).contains(FormField::Delay) ==> delay1 == delay2,
        form_fields(typ).contains(FormField::Timeout) ==> timeout1 == timeout2,
        form_fields(typ).contains(FormField::AlarmWhen) ==> alarm_value1 == alarm_value2,
        form_fields(typ).contains(FormField::States) ==> alarm_states1 == alarm_states2,
        form_fields(typ).contains(FormField::FeedbackDevice) ==> fb_device1 == fb_device2,
        form_fields(typ).contains(FormField::FeedbackPoint) ==> fb_point1 == fb_point2,
    ensures
        alarm_plan(typ, delay1, timeout1, alarm_value1, alarm_states1, fb_device1, fb_point1)
            == alarm_plan(typ, delay2, timeout2, alarm_value2, alarm_states2, fb_device2, fb_point2),
{
    let f = form_fields(typ);
    if typ == "high_limit"@ || typ == "low_limit"@ {
        assert(f[2] == FormField::Delay);
    } else if typ == "state_fault"@ {
        assert(f[1] == FormField::Delay);
    } else if typ == "stale"@ {
        assert(f[0] == FormField::Timeout);
    } else if typ == "state_change"@ {
        assert(f[0] == FormField::AlarmWhen);
        assert(f[1] == FormField::Delay);
    } else if typ == "multi_state_alarm"@ {
        assert(f[0] == FormField::States);
        assert(f[1] == FormField::Delay);
    } else if typ == "command_mismatch"@ {
        assert(f[0] == FormField::FeedbackDevice);
        assert(f[1] == FormField::FeedbackPoint);
        assert(f[2] == FormField::Delay);
    }
}

/// The fields the form shows for an alarm type (see `form_fields`).
pub fn alarm_type_fields(typ: &str) -> (r: Vec<FormField>)
    ensures
        r@ == form_fields(typ@),
{
    let r = if str_eq(typ, "high_limit") || str_eq(typ, "low_limit") {
        vec![FormField::Limit, FormField::Deadband, FormField::Delay]
    } else if str_eq(typ, "state_fault") {
        vec![FormField::FaultValue, FormField::Delay]
    } else if str_eq(typ, "stale") {
        vec![FormField::Timeout]
    } else if str_eq(typ, "state_change") {
        vec![FormField::AlarmWhen, FormField::Delay]
    } else if str_eq(typ, "multi_state_alarm") {
        vec![FormField::States, FormField::Delay]
    } else if str_eq(typ, "command_mismatch") {
        vec![FormField::FeedbackDevice, FormField::FeedbackPoint, FormField::Delay]
    } else {
        Vec::new()
    };
    assert(r@ =~= form_fields(typ@));
    r
}

// ----------------------------------------------------------------
// Describing parameters
// ----------------------------------------------------------------

/// The delay part of a description: `, delay: {n}s` for a delay, nothing
/// for none.
pub open spec fn delay_text(delay_secs: u64) -> Seq<char> {
    if delay_secs > 0 { ", delay: "@ + dec_digits(delay_secs as nat) + "s"@ } else { seq![] }
}

/// Numbers joined by `, `.
pub open spec fn joined_numbers(v: Seq<i64>) -> Seq<char>
    decreases v.len(),
{
    if v.len() == 0 {
        seq![]
    } else if v.len() == 1 {
        int_text(v[0] as int)
    } else {
        joined_numbers(v.drop_last()) + ", "@ + int_text(v.last() as int)
    }
}

/// The description of checked parameters in the alarm list. For the kinds
/// with a decimal limit or fault value it is the part that follows the
/// decimal values: the delay.
pub open spec fn plan_text(p: PlanView) -> Seq<char> {
    match p {
        PlanView::HighLimit { delay_secs } => delay_text(delay_secs),
        PlanView::LowLimit { delay_secs } => delay_text(delay_secs),
        PlanView::StateFault { delay_secs } => delay_text(delay_secs),
        PlanView::Stale { timeout_secs } => "timeout: "@ + dec_digits(timeout_secs as nat) + "s"@,
        PlanView::StateChange { alarm_value, delay_secs } => "alarm when: "@ + (if alarm_value { "ON"@ } else { "OFF"@ })
            + delay_text(delay_secs),
        PlanView::MultiStateAlarm { alarm_states, delay_secs } => "states: ["@ + joined_numbers(alarm_states) + "]"@
            + delay_text(delay_secs),
        PlanView::CommandMismatch { feedback_device_id, feedback_point_id, delay_secs } => "fb: "@ + feedback_device_id + "/"@
            + feedback_point_id + ", delay: "@ + dec_digits(delay_secs as nat) + "s"@,
    }
}

/// Appends the delay part of a description (see `delay_text`).
pub fn push_delay(s: &mut String, delay_secs: u64)
    ensures
        final(s)@ == old(s)@ + delay_text(delay_secs),
{
    if delay_secs > 0 {
        push_str(s, ", delay: ");
        push_dec(s, delay_secs);
        push_str(s, "s");
    } else {
        assert(old(s)@ + delay_text(delay_secs) =~= old(s)@);
    }
}

/// Appends numbers joined by `, ` (see `joined_numbers`).
fn push_numbers(s: &mut String, v: &Vec<i64>)
    ensures
        final(s)@ == old(s)@ + joined_numbers(v@),
{
    let mut i: usize = 0;
    while i < v.len()
        invariant
            i <= v@.len(),
            s@ == old(s)@ + joined_numbers(v@.take(i as int)),
        decreases v.len() - i,
    {
        proof {
            assert(v@.take(i + 1).drop_last() =~= v@.take(i as int));
            assert(v@.take(i + 1).last() == v@[i as int]);
        }
        if i > 0 {
            push_str(s, ", ");
        } else {
            assert(v@.take(1)[0] == v@[0]);
        }
        push_int(s, v[i]);
        i = i + 1;
        assert(s@ =~= old(s)@ + joined_numbers(v@.take(i as int)));
    }
    assert(v@.take(v@.len() as int) =~= v@);
}

/// The description of checked parameters (see `plan_text`).
pub fn describe_plan(p: &AlarmParamsPlan) -> (r: String)
    ensures
        r@ == plan_text(plan_view(*p)),
{
    let mut s = String::new();
    match p {
        AlarmParamsPlan::HighLimit { delay_secs } => push_delay(&mut s, *delay_secs),
        AlarmParamsPlan::LowLimit { delay_secs } => push_delay(&mut s, *delay_secs),
        AlarmParamsPlan::StateFault { delay_secs } => push_delay(&mut s, *delay_secs),
        AlarmParamsPlan::Stale { timeout_secs } => {
            push_str(&mut s, "timeout: ");
            push_dec(&mut s, *timeout_secs);
            push_str(&mut s, "s");
        },
        AlarmParamsPlan::StateChange { alarm_value, delay_secs } => {
            push_str(&mut s, "alarm when: ");
            push_str(&mut s, if *alarm_value { "ON" } else { "OFF" });
            push_delay(&mut s, *delay_secs);
        },
        AlarmParamsPlan::MultiStateAlarm { alarm_states, delay_secs } => {
            push_str(&mut s, "states: [");
            push_numbers(&mut s, alarm_states);
            push_str(&mut s, "]");
            push_delay(&mut s, *delay_secs);
        },
        AlarmParamsPlan::CommandMismatch { feedback_device_id, feedback_point_id, delay_secs } => {
            push_str(&mut s, "fb: ");
            push_str(&mut s, feedback_device_id.as_str());
            push_str(&mut s, "/");
            push_str(&mut s, feedback_point_id.as_str());
            push_str(&mut s, ", delay: ");
            push_dec(&mut s, *delay_secs);
            push_str(&mut s, "s");
        },
    }
    s
}

// ----------------------------------------------------------------
// The add-alarm forms
// ----------------------------------------------------------------

/// The form as it opens: no delay, a five-minute timeout, alarm when on,
/// state 1, no feedback point.
pub fn default_form() -> (r: AlarmFormInput)
    ensures
        r.delay@ == "0"@,
        r.timeout@ == "300"@,
        r.alarm_value@ == "true"@,
        r.alarm_states@ == "1"@,
        r.fb_device@.len() == 0,
        r.fb_point@.len() == 0,
{
    AlarmFormInput {
        delay: String::from_str("0"),
        timeout: String::from_str("300"),
        alarm_value: String::from_str("true"),
        alarm_states: String::from_str("1"),
        fb_device: String::new(),
        fb_point: String::new(),
    }
}

/// The point ids the point list offers: those of the first configured
/// device with instance id `id`, none when no device has it.
pub open spec fn point_ids_of(devices: Seq<LoadedDevice>, id: Seq<char>) -> Seq<Seq<char>>
    decreases devices.len(),
{
    if devices.len() == 0 {
        seq![]
    } else if devices[0].instance_id@ == id {
        devices[0].points@.map_values(|p: ProfilePoint| p.id@)
    } else {
        point_ids_of(devices.drop_first(), id)
    }
}

/// The point ids the point list offers (see `point_ids_of`).
pub fn device_point_ids(devices: &Vec<LoadedDevice>, id: &String) -> (r: Vec<String>)
    ensures
        names_view(r@) == point_ids_of(devices@, id@),
{
    let mut i: usize = 0;
    assert(devices@.skip(0) =~= devices@);
    while i < devices.len()
        invariant
            i <= devices@.len(),
            point_ids_of(devices@, id@) == point_ids_of(devices@.skip(i as int), id@),
        decreases devices.len() - i,
    {
        assert(devices@.skip(i as int).drop_first() =~= devices@.skip(i + 1));
        if str_eq(devices[i].instance_id.as_str(), id.as_str()) {
            let pts = &devices[i].points;
            let mut out: Vec<String> = Vec::new();
            let mut k: usize = 0;
            while k < pts.len()
                invariant
                    k <= pts@.len(),
                    names_view(out@) == pts@.take(k as int).map_values(|p: ProfilePoint| p.id@),
                decreases pts.len() - k,
            {
                let ghost before = out@;
                out.push(pts[k].id.clone());
                proof {
                    assert(names_view(out@) =~= names_view(before).push(pts@[k as int].id@));
                    assert(pts@.take(k + 1).map_values(|p: ProfilePoint| p.id@) =~= pts@.take(k as int).map_values(
                        |p: ProfilePoint| p.id@,
                    ).push(pts@[k as int].id@));
                }
                k = k + 1;
            }
            assert(pts@.take(pts@.len() as int) =~= pts@);
            return out;
        }
        i = i + 1;
    }
    let out: Vec<String> = Vec::new();
    assert(names_view(out@) =~= Seq::<Seq<char>>::empty());
    out
}

/// The general form needs a device and a point before anything else is
/// checked.
pub fn check_target(device_id: &String, point_id: &String) -> (r: Option<&'static str>)
    ensures
        match r {
            Some(m) => (device_id@.len() == 0 || point_id@.len() == 0) && m@ == "Select a device and point."@,
            None => device_id@.len() > 0 && point_id@.len() > 0,
        },
{
    if device_id.unicode_len() == 0 || point_id.unicode_len() == 0 {
        Some("Select a device and point.")
    } else {
        None
    }
}

/// The message when the alarm store refuses the new alarm.
pub fn create_error_text(e: &str) -> (r: String)
    ensures
        r@ == "Error: "@ + e@,
{
    let mut m = String::from_str("Error: ");
    push_str(&mut m, e);
    m
}

/// What creating alarms for the selected points in bulk reports, and
/// whether the selection is cleared: the number created, or that all
/// existed already, and then the selection clears; or the store's error,
/// with the selection kept.
pub fn batch_outcome(created: Result<usize, String>) -> (r: (String, bool))
    ensures
        match created {
            Ok(n) => r.1 && r.0@ == if n == 0 {
                "All alarms already exist (skipped duplicates)"@
            } else {
                "Created "@ + dec_digits(n as nat) + " alarm(s)"@
            },
            Err(e) => !r.1 && r.0@ == "Error: "@ + e@,
        },
{
    match created {
        Ok(n) => {
            if n == 0 {
                (String::from_str("All alarms already exist (skipped duplicates)"), true)
            } else {
                let mut m = String::from_str("Created ");
                push_dec(&mut m, n as u64);
                push_str(&mut m, " alarm(s)");
                (m, true)
            }
        },
        Err(e) => (create_error_text(e.as_str()), false),
    }
}

/// The template panel's count line and apply button.
pub fn selection_texts(count: usize) -> (r: (String, String))
    ensures
        r.0@ == dec_digits(count as nat) + " point(s) selected"@,
        r.1@ == "Apply to "@ + dec_digits(count as nat) + " point(s)"@,
{
    let mut a = String::new();
    push_dec(&mut a, count as u64);
    push_str(&mut a, " point(s) selected");
    let mut b = String::from_str("Apply to ");
    push_dec(&mut b, count as u64);
    push_str(&mut b, " point(s)");
    (a, b)
}

} // verus!
