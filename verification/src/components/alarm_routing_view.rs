//! Alarm routing: what the rule and notification tables show, the new
//! rule form's recipient, and the delivery log's status filter.

use vstd::prelude::*;

use crate::numparse::{parse_i64, parse_i64_spec, parse_u32, parse_u32_spec, parse_u8, parse_u8_spec};
use crate::text::{chars_of, dec_digits, int_text, push_dec, push_int, push_str, str_eq};

verus! {

/// Where a notification's delivery stands.
#[derive(Debug, Clone, Copy, PartialEq, Eq, Structural)]
pub enum DeliveryStatus {
    Delivered,
    Failed,
    Retrying,
    Pending,
}

/// Badge class of a delivery status.
pub fn delivery_badge_class(s: DeliveryStatus) -> (r: &'static str)
    ensures
        r@ == match s {
            DeliveryStatus::Delivered => "badge badge-success"@,
            DeliveryStatus::Failed => "badge badge-danger"@,
            DeliveryStatus::Retrying => "badge badge-warning"@,
            DeliveryStatus::Pending => "badge badge-info"@,
        },
{
    match s {
        DeliveryStatus::Delivered => "badge badge-success",
        DeliveryStatus::Failed => "badge badge-danger",
        DeliveryStatus::Retrying => "badge badge-warning",
        DeliveryStatus::Pending => "badge badge-info",
    }
}

/// The name a rule shows for its recipient: the recipient's name, or
/// `#id` when no recipient `(id, name)` has that id.
pub open spec fn recipient_label_text(recipients: Seq<(i64, String)>, id: i64) -> Seq<char>
    decreases recipients.len(),
{
    if recipients.len() == 0 {
        "#"@ + int_text(id as int)
    } else if recipients[0].0 == id {
        recipients[0].1@
    } else {
        recipient_label_text(recipients.drop_first(), id)
    }
}

/// The name a rule shows for its recipient (see `recipient_label_text`).
pub fn recipient_label(recipients: &Vec<(i64, String)>, id: i64) -> (r: String)
    ensures
        r@ == recipient_label_text(recipients@, id),
{
    let mut i: usize = 0;
    assert(recipients@.skip(0) =~= recipients@);
    while i < recipients.len()
        invariant
            i <= recipients@.len(),
            recipient_label_text(recipients@, id) == recipient_label_text(recipients@.skip(i as int), id),
        decreases recipients.len() - i,
    {
        assert(recipients@.skip(i as int).drop_first() =~= recipients@.skip(i + 1));
        if recipients[i].0 == id {
            return recipients[i].1.clone();
        }
        i = i + 1;
    }
    assert(recipients@.skip(i as int) =~= Seq::<(i64, String)>::empty());
    let mut out = String::from_str("#");
    push_int(&mut out, id);
    out
}

/// The recipient a new rule starts with: the first recipient's id, or 0.
pub fn new_rule_recipient(recipient_ids: &Vec<i64>) -> (r: i64)
    ensures
        r == (if recipient_ids@.len() > 0 { recipient_ids@[0] } else { 0 }),
{
    if recipient_ids.len() > 0 {
        recipient_ids[0]
    } else {
        0
    }
}

/// What a rule shows for its device filter: `All` when it has none.
pub fn device_filter_display(filter: &String) -> (r: String)
    ensures
        r@ == (if filter@.len() == 0 { "All"@ } else { filter@ }),
{
    if filter.as_str().unicode_len() == 0 {
        String::from_str("All")
    } else {
        filter.clone()
    }
}

/// What a flag column shows.
pub fn yes_no(b: bool) -> (r: &'static str)
    ensures
        r@ == (if b { "Yes"@ } else { "No"@ }),
{
    if b {
        "Yes"
    } else {
        "No"
    }
}

/// A rule's escalation delay as shown: the minutes and `m`.
pub fn delay_text(minutes: u32) -> (r: String)
    ensures
        r@ == dec_digits(minutes as nat) + "m"@,
{
    let mut out = String::new();
    push_dec(&mut out, minutes as u64);
    push_str(&mut out, "m");
    out
}

/// Positions, in order, of the first `n` records whose status text is
/// the filter (all of them for an empty filter).
pub open spec fn log_positions(statuses: Seq<String>, filter: Seq<char>, n: nat) -> Seq<int>
    decreases n,
{
    if n == 0 || n > statuses.len() {
        seq![]
    } else if filter.len() == 0 || statuses[n - 1]@ == filter {
        log_positions(statuses, filter, (n - 1) as nat).push(n - 1)
    } else {
        log_positions(statuses, filter, (n - 1) as nat)
    }
}

/// The delivery log's rows under a status filter, given each record's
/// status text (see `log_positions`).
pub fn filter_log(statuses: &Vec<String>, filter: &str) -> (r: Vec<usize>)
    ensures
        r@.map_values(|i: usize| i as int) == log_positions(statuses@, filter@, statuses@.len()),
{
    let empty = filter.unicode_len() == 0;
    let mut out: Vec<usize> = Vec::new();
    let mut i: usize = 0;
    while i < statuses.len()
        invariant
            i <= statuses@.len(),
            empty == (filter@.len() == 0),
            out@.map_values(|k: usize| k as int) == log_positions(statuses@, filter@, i as nat),
        decreases statuses.len() - i,
    {
        if empty || str_eq(statuses[i].as_str(), filter) {
            out.push(i);
        }
        proof {
            assert(out@.map_values(|k: usize| k as int) =~= log_positions(statuses@, filter@, (i + 1) as nat));
        }
        i = i + 1;
    }
    out
}

/// The error column of a delivery: its last error, or `-`.
pub fn error_text(last_error: &Option<String>) -> (r: String)
    ensures
        r@ == match *last_error {
            Some(e) => e@,
            None => "-"@,
        },
{
    match last_error {
        Some(e) => e.clone(),
        None => String::from_str("-"),
    }
}

// ----------------------------------------------------------------
// The recipient and rule forms
// ----------------------------------------------------------------

/// How a recipient is notified.
#[derive(Debug, Clone, Copy, PartialEq, Eq, Structural)]
pub enum ChannelType {
    Webhook,
    Email,
    Sms,
}

/// The channel of the form's channel choice: `email` and `sms` by name,
/// anything else a webhook.
pub fn channel_from_choice(v: &str) -> (r: ChannelType)
    ensures
        r == if v@ == "email"@ {
            ChannelType::Email
        } else if v@ == "sms"@ {
            ChannelType::Sms
        } else {
            ChannelType::Webhook
        },
{
    if str_eq(v, "email") {
        ChannelType::Email
    } else if str_eq(v, "sms") {
        ChannelType::Sms
    } else {
        ChannelType::Webhook
    }
}

/// The example address the address field shows for a channel.
pub fn address_placeholder(c: ChannelType) -> (r: &'static str)
    ensures
        r@ == match c {
            ChannelType::Webhook => "https://example.com/webhook"@,
            ChannelType::Email => "ops@example.com"@,
            ChannelType::Sms => "+15551234567"@,
        },
{
    match c {
        ChannelType::Webhook => "https://example.com/webhook",
        ChannelType::Email => "ops@example.com",
        ChannelType::Sms => "+15551234567",
    }
}

/// The recipient form: the recipient being edited (none for a new one)
/// and the fields.
pub struct RecipientForm {
    pub editing_id: Option<i64>,
    pub name: String,
    pub channel: ChannelType,
    pub address: String,
    pub config: String,
}

impl RecipientForm {
    /// The form for a new recipient: empty, a webhook, configuration `{}`.
    pub fn blank() -> (r: RecipientForm)
        ensures
            r.editing_id is None,
            r.name@.len() == 0,
            r.channel == ChannelType::Webhook,
            r.address@.len() == 0,
            r.config@ == "{}"@,
    {
        RecipientForm {
            editing_id: None,
            name: String::new(),
            channel: ChannelType::Webhook,
            address: String::new(),
            config: String::from_str("{}"),
        }
    }

    /// The form's title.
    pub fn title(&self) -> (r: &'static str)
        ensures
            r@ == if self.editing_id is Some { "Edit Recipient"@ } else { "New Recipient"@ },
    {
        if self.editing_id.is_some() {
            "Edit Recipient"
        } else {
            "New Recipient"
        }
    }
}

/// What saving a form reports, and whether the form closes: `{what}
/// saved` and closed, or the store's error with the form left open.
pub fn saved_outcome(what: &str, result: &Result<(), String>) -> (r: (bool, String))
    ensures
        match result {
            Ok(()) => r.0 && r.1@ == what@ + " saved"@,
            Err(e) => !r.0 && r.1@ == "Error: "@ + e@,
        },
{
    match result {
        Ok(()) => {
            let mut m = String::from_str(what);
            push_str(&mut m, " saved");
            (true, m)
        },
        Err(e) => {
            let mut m = String::from_str("Error: ");
            push_str(&mut m, e.as_str());
            (false, m)
        },
    }
}

/// What deleting a recipient reports.
pub fn deleted_message(name: &str) -> (r: String)
    ensures
        r@ == "Deleted "@ + name@,
{
    let mut m = String::from_str("Deleted ");
    push_str(&mut m, name);
    m
}

/// The routing rule form.
pub struct RuleForm {
    pub editing_id: Option<i64>,
    pub recipient_id: i64,
    pub min_severity: String,
    pub devices: String,
    pub alarm_types: String,
    pub tier: u8,
    pub delay_mins: u32,
    pub notify_on_clear: bool,
}

impl RuleForm {
    /// The form for a new rule: the first recipient, minimum severity
    /// `info`, no filters, tier 0, no delay, notify on clear.
    pub fn blank(recipient_ids: &Vec<i64>) -> (r: RuleForm)
        ensures
            r.editing_id is None,
            r.recipient_id == (if recipient_ids@.len() > 0 { recipient_ids@[0] } else { 0 }),
            r.min_severity@ == "info"@,
            r.devices@.len() == 0,
            r.alarm_types@.len() == 0,
            r.tier == 0,
            r.delay_mins == 0,
            r.notify_on_clear,
    {
        RuleForm {
            editing_id: None,
            recipient_id: new_rule_recipient(recipient_ids),
            min_severity: String::from_str("info"),
            devices: String::new(),
            alarm_types: String::new(),
            tier: 0,
            delay_mins: 0,
            notify_on_clear: true,
        }
    }

    /// The form's title.
    pub fn title(&self) -> (r: &'static str)
        ensures
            r@ == if self.editing_id is Some { "Edit Rule"@ } else { "New Rule"@ },
    {
        if self.editing_id.is_some() {
            "Edit Rule"
        } else {
            "New Rule"
        }
    }

    /// The recipient choice: taken when it reads as a number, ignored
    /// otherwise.
    pub fn choose_recipient(&mut self, typed: &str)
        ensures
            final(self).recipient_id == match parse_i64_spec(typed@) {
                Some(v) => v,
                None => old(self).recipient_id,
            },
            final(self).tier == old(self).tier,
            final(self).delay_mins == old(self).delay_mins,
    {
        let cs = chars_of(typed);
        match parse_i64(&cs) {
            Some(v) => self.recipient_id = v,
            None => {},
        }
    }

    /// The tier field: taken when it reads as a number from 0 to 255,
    /// ignored otherwise.
    pub fn type_tier(&mut self, typed: &str)
        ensures
            final(self).tier == match parse_u8_spec(typed@) {
                Some(v) => v,
                None => old(self).tier,
            },
            final(self).recipient_id == old(self).recipient_id,
            final(self).delay_mins == old(self).delay_mins,
    {
        let cs = chars_of(typed);
        match parse_u8(&cs) {
            Some(v) => self.tier = v,
            None => {},
        }
    }

    /// The delay field: taken when it reads as a whole number of minutes,
    /// ignored otherwise.
    pub fn type_delay(&mut self, typed: &str)
        ensures
            final(self).delay_mins == match parse_u32_spec(typed@) {
                Some(v) => v,
                None => old(self).delay_mins,
            },
            final(self).recipient_id == old(self).recipient_id,
            final(self).tier == old(self).tier,
    {
        let cs = chars_of(typed);
        match parse_u32(&cs) {
            Some(v) => self.delay_mins = v,
            None => {},
        }
    }
}

} // verus!
