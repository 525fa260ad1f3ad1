//! Cloud bridge settings: provider colours and ages of the last message.

use vstd::prelude::*;

use crate::calendar::tdiv;
use crate::clock::now_unix_secs;
use crate::json::{
    copy_json, entries_view, json_view, lemma_entries_view, lemma_entry_smaller, lemma_lookup_unique, lookup, lookup_entry, JsonValue, JsonView,
};
use crate::text::{int_text, push_int, push_str, str_eq};

verus! {

/// Badge colour of a cloud provider.
pub open spec fn provider_color(provider: Seq<char>) -> Seq<char> {
    if provider == "aws_iot_core"@ {
        "#FF9900"@
    } else if provider == "azure_iot_hub"@ {
        "#0078D4"@
    } else if provider == "google_pubsub"@ {
        "#4285F4"@
    } else {
        "#666666"@
    }
}

/// Badge colour of a cloud provider.
pub fn provider_badge_color(provider: &str) -> (r: &'static str)
    ensures
        r@ == provider_color(provider@),
{
    if str_eq(provider, "aws_iot_core") {
        "#FF9900"
    } else if str_eq(provider, "azure_iot_hub") {
        "#0078D4"
    } else if str_eq(provider, "google_pubsub") {
        "#4285F4"
    } else {
        "#666666"
    }
}

/// Age of the millisecond timestamp `ms` at `now` (seconds), in minutes,
/// hours or days: `Just now`, `{m}m ago`, `{h}h ago`, `{d}d ago`.
pub open spec fn minutes_ago_text(ms: int, now: int) -> Seq<char> {
    let mins_ago = tdiv(now - tdiv(ms, 1000), 60);
    if mins_ago < 1 {
        "Just now"@
    } else if mins_ago < 60 {
        int_text(mins_ago) + "m ago"@
    } else if mins_ago < 1440 {
        int_text(mins_ago / 60) + "h ago"@
    } else {
        int_text(mins_ago / 1440) + "d ago"@
    }
}

/// Age of `ms` at the given time `now` (seconds since the epoch).
pub fn format_timestamp_at(ms: i64, now: i64) -> (r: String)
    ensures
        r@ == minutes_ago_text(ms as int, now as int),
{
    let secs = ms / 1000;
    let mins_ago: i128 = (now as i128 - secs as i128) / 60;
    if mins_ago < 1 {
        String::from_str("Just now")
    } else if mins_ago < 60 {
        let mut s = String::new();
        push_int(&mut s, mins_ago as i64);
        push_str(&mut s, "m ago");
        s
    } else if mins_ago < 1440 {
        let mut s = String::new();
        push_int(&mut s, (mins_ago / 60) as i64);
        push_str(&mut s, "h ago");
        s
    } else {
        let mut s = String::new();
        push_int(&mut s, (mins_ago / 1440) as i64);
        push_str(&mut s, "d ago");
        s
    }
}

/// Age of `ms` now.
pub fn format_timestamp(ms: i64) -> (r: String)
    ensures
        exists|now: i64| r@ == minutes_ago_text(ms as int, now as int),
{
    let now = now_unix_secs();
    format_timestamp_at(ms, now)
}


// ----------------------------------------------------------------
// Bridge status
// ----------------------------------------------------------------

/// A configured cloud bridge as the status table reads it.
pub struct BridgeInfo {
    pub id: String,
    pub name: String,
    pub provider: String,
}

/// The name and provider the status table shows for bridge `id`: those of
/// the first configured bridge with that id, or the id and no provider
/// when none has it.
pub open spec fn bridge_columns(bridges: Seq<BridgeInfo>, id: Seq<char>) -> (Seq<char>, Seq<char>)
    decreases bridges.len(),
{
    if bridges.len() == 0 {
        (id, seq![])
    } else if bridges[0].id@ == id {
        (bridges[0].name@, bridges[0].provider@)
    } else {
        bridge_columns(bridges.drop_first(), id)
    }
}

/// The name and provider the status table shows (see `bridge_columns`).
pub fn bridge_status_columns(bridges: &Vec<BridgeInfo>, id: &String) -> (r: (String, String))
    ensures
        (r.0@, r.1@) == bridge_columns(bridges@, id@),
{
    let mut i: usize = 0;
    assert(bridges@.skip(0) =~= bridges@);
    while i < bridges.len()
        invariant
            i <= bridges@.len(),
            bridge_columns(bridges@, id@) == bridge_columns(bridges@.skip(i as int), id@),
        decreases bridges.len() - i,
    {
        assert(bridges@.skip(i as int).drop_first() =~= bridges@.skip(i + 1));
        if str_eq(bridges[i].id.as_str(), id.as_str()) {
            return (bridges[i].name.clone(), bridges[i].provider.clone());
        }
        i = i + 1;
    }
    assert(bridges@.skip(i as int).len() == 0);
    (id.clone(), String::new())
}

/// The badge class of a bridge's state.
pub fn state_badge_class(state: &str) -> (r: &'static str)
    ensures
        r@ == if state@ == "idle"@ {
            "badge badge-green"@
        } else if state@ == "publishing"@ {
            "badge badge-blue"@
        } else if state@ == "error"@ {
            "badge badge-red"@
        } else {
            "badge"@
        },
{
    if str_eq(state, "idle") {
        "badge badge-green"
    } else if str_eq(state, "publishing") {
        "badge badge-blue"
    } else if str_eq(state, "error") {
        "badge badge-red"
    } else {
        "badge"
    }
}

/// When a bridge last published: `Never` before its first message, its
/// age now otherwise.
pub fn last_publish_text(ms: i64) -> (r: String)
    ensures
        ms <= 0 ==> r@ == "Never"@,
        ms > 0 ==> exists|now: i64| r@ == minutes_ago_text(ms as int, now as int),
{
    if ms > 0 {
        format_timestamp(ms)
    } else {
        String::from_str("Never")
    }
}

// ----------------------------------------------------------------
// Secret redaction in configuration JSON
// ----------------------------------------------------------------

/// Keys whose values are secrets.
pub open spec fn secret_fields() -> Seq<Seq<char>> {
    seq!["key"@, "key_pem_path"@, "key_path"@, "cert_pem_path"@, "cert_path"@, "credentials_json_path"@, "private_key"@]
}

/// What a secret is replaced with.
pub open spec fn redaction_marker() -> Seq<char> {
    "***REDACTED***"@
}

/// A value with the value of every secret key, in this object and in the
/// objects nested in it (not inside arrays), replaced by the marker.
pub open spec fn redact_view(j: JsonView) -> JsonView
    decreases j, 0nat,
{
    match j {
        JsonView::Object(es) => JsonView::Object(redact_entries(es, es.len())),
        _ => j,
    }
}

/// The first `n` entries, redacted.
pub open spec fn redact_entries(es: Seq<(Seq<char>, JsonView)>, n: nat) -> Seq<(Seq<char>, JsonView)>
    decreases es, n,
{
    if n == 0 || n > es.len() {
        seq![]
    } else {
        redact_entries(es, (n - 1) as nat).push((
            es[n - 1].0,
            if secret_fields().contains(es[n - 1].0) {
                JsonView::Str(redaction_marker())
            } else {
                redact_view(es[n - 1].1)
            },
        ))
    }
}

/// An edited value with the original put back wherever the edit left the
/// marker (for keys that the original has), recursively through objects
/// that both sides have under the same key.
pub open spec fn restore_view(e: JsonView, o: JsonView) -> JsonView
    decreases e, 0nat,
{
    match e {
        JsonView::Object(ees) => match o {
            JsonView::Object(oes) => JsonView::Object(restore_entries(ees, ees.len(), oes)),
            _ => e,
        },
        _ => e,
    }
}

/// The first `n` edited entries, restored against the original entries.
pub open spec fn restore_entries(
    ees: Seq<(Seq<char>, JsonView)>,
    n: nat,
    oes: Seq<(Seq<char>, JsonView)>,
) -> Seq<(Seq<char>, JsonView)>
    decreases ees, n,
{
    if n == 0 || n > ees.len() {
        seq![]
    } else {
        let k = ees[n - 1].0;
        let v = ees[n - 1].1;
        restore_entries(ees, (n - 1) as nat, oes).push((
            k,
            if v == JsonView::Str(redaction_marker()) {
                match lookup(oes, k) {
                    Some(ov) => ov,
                    None => v,
                }
            } else if v is Object {
                match lookup(oes, k) {
                    Some(ov) => restore_view(v, ov),
                    None => v,
                }
            } else {
                v
            },
        ))
    }
}

/// Objects, here and nested in objects, never repeat a key (as in a JSON
/// map).
pub open spec fn keys_unique(j: JsonView) -> bool
    decreases j, 0nat,
{
    match j {
        JsonView::Object(es) => {
            &&& forall|a: int, b: int| 0 <= a < b < es.len() ==> (#[trigger] es[a]).0 != (#[trigger] es[b]).0
            &&& entries_keys_unique(es, es.len())
        },
        _ => true,
    }
}

/// The values of the first `n` entries have unique keys throughout.
pub open spec fn entries_keys_unique(es: Seq<(Seq<char>, JsonView)>, n: nat) -> bool
    decreases es, n,
{
    if n == 0 || n > es.len() {
        true
    } else {
        entries_keys_unique(es, (n - 1) as nat) && keys_unique(es[n - 1].1)
    }
}

/// Redaction never turns an object into a non-object or the reverse.
pub proof fn lemma_redact_keeps_shape(j: JsonView)
    ensures
        (redact_view(j) is Object) == (j is Object),
        !(j is Object) ==> redact_view(j) == j,
{
}

/// Putting the original back into its own redacted form gives the original:
/// a configuration that is displayed redacted and saved unchanged keeps its
/// secrets.
pub proof fn law_restore_undoes_redact(j: JsonView)
    requires
        keys_unique(j),
    ensures
        restore_view(redact_view(j), j) == j,
    decreases j, 0nat,
{
    match j {
        JsonView::Object(es) => {
            lemma_restore_redact_entries(es, es.len());
            assert(restore_entries(redact_entries(es, es.len()), es.len(), es) =~= es.take(es.len() as int));
            assert(es.take(es.len() as int) =~= es);
            lemma_redact_entries_len(es, es.len());
        },
        _ => {},
    }
}

/// The first `n` redacted entries are `n` entries.
pub proof fn lemma_redact_entries_len(es: Seq<(Seq<char>, JsonView)>, n: nat)
    requires
        n <= es.len(),
    ensures
        redact_entries(es, n).len() == n,
        forall|i: int| 0 <= i < n ==> (#[trigger] redact_entries(es, n)[i]).0 == es[i].0,
    decreases n,
{
    if n > 0 {
        lemma_redact_entries_len(es, (n - 1) as nat);
    }
}

/// Restoring the first `n` redacted entries against the original entries
/// gives the first `n` original entries.
pub proof fn lemma_restore_redact_entries(es: Seq<(Seq<char>, JsonView)>, n: nat)
    requires
        n <= es.len(),
        forall|a: int, b: int| 0 <= a < b < es.len() ==> (#[trigger] es[a]).0 != (#[trigger] es[b]).0,
        entries_keys_unique(es, es.len()),
    ensures
        restore_entries(redact_entries(es, es.len()), n, es) == es.take(n as int),
    decreases es, n,
{
    let r = redact_entries(es, es.len());
    lemma_redact_entries_len(es, es.len());
    if n == 0 {
        assert(es.take(0) =~= Seq::<(Seq<char>, JsonView)>::empty());
    } else {
        lemma_restore_redact_entries(es, (n - 1) as nat);
        let k = es[n - 1].0;
        let v = es[n - 1].1;
        lemma_entries_keys_unique_at(es, es.len(), n - 1);
        lemma_lookup_unique(es, n - 1);
        lemma_redact_entry_at(es, es.len(), n - 1);
        assert(r[n - 1].0 == k);
        if secret_fields().contains(k) {
            assert(r[n - 1].1 == JsonView::Str(redaction_marker()));
        } else {
            assert(r[n - 1].1 == redact_view(v));
            lemma_redact_keeps_shape(v);
            if v is Object {
                assert(decreases_to!(es => es[n - 1]));
                law_restore_undoes_redact(v);
            }
        }
        assert(es.take(n as int) =~= es.take(n - 1).push(es[n - 1]));
    }
}

/// Entry `i` of the redacted entries.
pub proof fn lemma_redact_entry_at(es: Seq<(Seq<char>, JsonView)>, n: nat, i: int)
    requires
        n <= es.len(),
        0 <= i < n,
    ensures
        redact_entries(es, n)[i] == (es[i].0, if secret_fields().contains(es[i].0) {
            JsonView::Str(redaction_marker())
        } else {
            redact_view(es[i].1)
        }),
    decreases n,
{
    lemma_redact_entries_len(es, (n - 1) as nat);
    if i < n - 1 {
        lemma_redact_entry_at(es, (n - 1) as nat, i);
    }
}

/// Each of the first `n` values has unique keys throughout.
pub proof fn lemma_entries_keys_unique_at(es: Seq<(Seq<char>, JsonView)>, n: nat, i: int)
    requires
        n <= es.len(),
        0 <= i < n,
        entries_keys_unique(es, n),
    ensures
        keys_unique(es[i].1),
    decreases n,
{
    if i < n - 1 {
        lemma_entries_keys_unique_at(es, (n - 1) as nat, i);
    }
}

/// Whether a key is one of the secret keys.
pub fn is_secret_field(k: &str) -> (r: bool)
    ensures
        r == secret_fields().contains(k@),
{
    let names: [&str; 7] = ["key", "key_pem_path", "key_path", "cert_pem_path", "cert_path", "credentials_json_path", "private_key"];
    let ghost spec_names = secret_fields();
    assert(names@.map_values(|s: &str| s@) =~= spec_names);
    let mut i: usize = 0;
    while i < 7
        invariant
            i <= 7,
            spec_names == secret_fields(),
            names@.map_values(|s: &str| s@) == spec_names,
            forall|j: int| 0 <= j < i ==> spec_names[j] != k@,
        decreases 7 - i,
    {
        if str_eq(k, names[i]) {
            assert(spec_names[i as int] == k@);
            assert(spec_names.contains(k@));
            return true;
        }
        i = i + 1;
    }
    false
}

/// The value with its secrets replaced by the marker (see `redact_view`).
fn redacted_copy(v: &JsonValue) -> (r: JsonValue)
    ensures
        json_view(r) == redact_view(json_view(*v)),
    decreases v,
{
    match v {
        JsonValue::Object(entries) => {
            let ghost ev = entries_view(entries@);
            proof {
                lemma_entries_view(entries@);
            }
            let mut out: Vec<(String, JsonValue)> = Vec::new();
            let mut i: usize = 0;
            while i < entries.len()
                invariant
                    *v == JsonValue::Object(*entries),
                    i <= entries@.len(),
                    ev == entries_view(entries@),
                    ev.len() == entries@.len(),
                    forall|k: int| 0 <= k < entries@.len() ==> #[trigger] ev[k] == (entries@[k].0@, json_view(entries@[k].1)),
                    entries_view(out@) == redact_entries(ev, i as nat),
                decreases entries.len() - i,
            {
                let key = &entries[i].0;
                let secret = is_secret_field(key.as_str());
                let nv = if secret {
                    JsonValue::Str(String::from_str("***REDACTED***"))
                } else {
                    proof {
                        lemma_entry_smaller(*v, i as int);
                    }
                    redacted_copy(&entries[i].1)
                };
                let ghost prev = out@;
                out.push((key.clone(), nv));
                proof {
                    assert(out@.subrange(0, out@.len() - 1) =~= prev);
                    assert(ev[i as int] == (entries@[i as int].0@, json_view(entries@[i as int].1)));
                    assert(json_view(nv) == (if secret_fields().contains(ev[i as int].0) {
                        JsonView::Str(redaction_marker())
                    } else {
                        redact_view(ev[i as int].1)
                    }));
                    assert(entries_view(out@) == entries_view(prev).push((key@, json_view(nv))));
                    assert(redact_entries(ev, (i + 1) as nat) == redact_entries(ev, i as nat).push((
                        ev[i as int].0,
                        json_view(nv),
                    )));
                }
                i = i + 1;
            }
            proof {
                assert(ev.len() == entries@.len());
            }
            JsonValue::Object(out)
        },
        _ => copy_json(v),
    }
}

/// Replaces the value of every secret key, in this object and in the
/// objects nested in it, by `***REDACTED***`.
pub fn redact_object(val: &mut JsonValue)
    ensures
        json_view(*final(val)) == redact_view(json_view(*old(val))),
{
    let r = redacted_copy(val);
    *val = r;
}

/// Whether a value is the marker string.
fn is_marker(v: &JsonValue) -> (r: bool)
    ensures
        r == (json_view(*v) == JsonView::Str(redaction_marker())),
{
    match v {
        JsonValue::Str(t) => str_eq(t.as_str(), "***REDACTED***"),
        _ => false,
    }
}

/// The edited value with the original put back (see `restore_view`).
fn restored_copy(e: &JsonValue, o: &JsonValue) -> (r: JsonValue)
    ensures
        json_view(r) == restore_view(json_view(*e), json_view(*o)),
    decreases e,
{
    match e {
        JsonValue::Object(ees) => match o {
            JsonValue::Object(oes) => {
                let ghost ev = entries_view(ees@);
                let ghost ov = entries_view(oes@);
                proof {
                    lemma_entries_view(ees@);
                }
                let mut out: Vec<(String, JsonValue)> = Vec::new();
                let mut i: usize = 0;
                while i < ees.len()
                    invariant
                        *e == JsonValue::Object(*ees),
                        *o == JsonValue::Object(*oes),
                        i <= ees@.len(),
                        ev == entries_view(ees@),
                        ov == entries_view(oes@),
                        ev.len() == ees@.len(),
                        forall|j: int| 0 <= j < ees@.len() ==> #[trigger] ev[j] == (ees@[j].0@, json_view(ees@[j].1)),
                        entries_view(out@) == restore_entries(ev, i as nat, ov),
                    decreases ees.len() - i,
                {
                    let key = &ees[i].0;
                    let val = &ees[i].1;
                    let nv = if is_marker(val) {
                        match lookup_entry(oes, key) {
                            Some(orig) => copy_json(orig),
                            None => copy_json(val),
                        }
                    } else if let JsonValue::Object(_) = val {
                        match lookup_entry(oes, key) {
                            Some(orig) => {
                                proof {
                                    lemma_entry_smaller(*e, i as int);
                                }
                                restored_copy(val, orig)
                            },
                            None => copy_json(val),
                        }
                    } else {
                        copy_json(val)
                    };
                    let ghost prev = out@;
                    out.push((key.clone(), nv));
                    proof {
                        assert(out@.subrange(0, out@.len() - 1) =~= prev);
                        assert(ev[i as int] == (ees@[i as int].0@, json_view(ees@[i as int].1)));
                    }
                    i = i + 1;
                }
                JsonValue::Object(out)
            },
            _ => copy_json(e),
        },
        _ => copy_json(e),
    }
}

/// Puts the original value back wherever the edit left a field as
/// `***REDACTED***`, recursively through objects present on both sides.
pub fn restore_redacted(edited: &mut JsonValue, original: &JsonValue)
    ensures
        json_view(*final(edited)) == restore_view(json_view(*old(edited)), json_view(*original)),
{
    let r = restored_copy(edited, original);
    *edited = r;
}

/// A parsed configuration, `null` where the text did not parse.
pub open spec fn parsed_or_null(parsed: Option<JsonValue>) -> JsonView {
    match parsed {
        Some(v) => json_view(v),
        None => JsonView::Null,
    }
}

/// The configuration to display: the parsed text (`null` where it did not
/// parse) with its secrets redacted.
pub fn redact_for_display(parsed: Option<JsonValue>) -> (r: JsonValue)
    ensures
        json_view(r) == redact_view(parsed_or_null(parsed)),
{
    let mut val = match parsed {
        Some(v) => v,
        None => JsonValue::Null,
    };
    redact_object(&mut val);
    val
}

/// The configuration to save: the edited value (`null` where it did not
/// parse) with the original's secrets put back where the edit left the
/// marker.
pub fn merge_parsed_with_original(edited: Option<JsonValue>, original: Option<JsonValue>) -> (r: JsonValue)
    ensures
        json_view(r) == restore_view(parsed_or_null(edited), parsed_or_null(original)),
{
    let mut e = match edited {
        Some(v) => v,
        None => JsonValue::Null,
    };
    let o = match original {
        Some(v) => v,
        None => JsonValue::Null,
    };
    restore_redacted(&mut e, &o);
    e
}

// ----------------------------------------------------------------
// Cloud bridge form: saving and testing
// ----------------------------------------------------------------

/// The cloud bridge form's fields.
pub struct CloudBridgeForm {
    pub name: String,
    pub provider: String,
    pub config: String,
    pub enabled: bool,
    pub on_values: bool,
    pub on_alarms: bool,
    pub on_fdd: bool,
    pub on_device_status: bool,
}

/// A new bridge's form: AWS IoT Core, an empty JSON object, everything
/// enabled.
pub fn new_bridge_form() -> (r: CloudBridgeForm)
    ensures
        r.name@ == Seq::<char>::empty(),
        r.provider@ == "aws_iot_core"@,
        r.config@ == "{}"@,
        r.enabled && r.on_values && r.on_alarms && r.on_fdd && r.on_device_status,
{
    CloudBridgeForm {
        name: String::new(),
        provider: String::from_str("aws_iot_core"),
        config: String::from_str("{}"),
        enabled: true,
        on_values: true,
        on_alarms: true,
        on_fdd: true,
        on_device_status: true,
    }
}

/// What saving the form does.
pub enum SavePlan {
    /// Refuse with this message.
    Reject(String),
    /// Update the bridge with this id, its stored secrets put back where
    /// the edit left them redacted.
    Update(String),
    /// Create a new bridge.
    Create,
}

/// Saving needs a configuration that parses as JSON; an edited bridge is
/// updated, a new one created.
pub fn plan_save(config_parses: bool, editing: &Option<String>) -> (r: SavePlan)
    ensures
        match r {
            SavePlan::Reject(m) => !config_parses && m@ == "Error: Config must be valid JSON"@,
            SavePlan::Update(i) => config_parses && (match *editing {
                Some(id) => i@ == id@,
                None => false,
            }),
            SavePlan::Create => config_parses && editing is None,
        },
{
    if !config_parses {
        return SavePlan::Reject(String::from_str("Error: Config must be valid JSON"));
    }
    match editing {
        Some(id) => SavePlan::Update(id.clone()),
        None => SavePlan::Create,
    }
}

/// A new bridge's id: `cloud-` and the first group of a UUID's text.
pub fn bridge_id_from_uuid(uuid: &str) -> (r: String)
    ensures
        r@ == "cloud-"@ + crate::text::before_first(uuid@, '-'),
{
    let mut out = String::from_str("cloud-");
    match crate::text::split_once_char(uuid, '-') {
        Some((first, _)) => push_str(&mut out, first.as_str()),
        None => {
            proof {
                crate::text::lemma_before_first(uuid@, '-');
                assert(crate::text::before_first(uuid@, '-') =~= uuid@);
            }
            push_str(&mut out, uuid)
        },
    }
    out
}

/// Which audit entry a save writes.
#[derive(Debug, Clone, Copy, PartialEq, Eq, Structural)]
pub enum BridgeAudit {
    Create,
    Update,
    Test,
}

/// What the form does after a store call: the audit entry to write (and
/// its details), the message to show (none clears it) and whether the
/// form closes.
pub struct FormOutcome {
    pub audit: Option<(BridgeAudit, String)>,
    pub message: Option<String>,
    pub close_form: bool,
}

/// The message shown is `t`.
pub open spec fn message_is(m: Option<String>, t: Seq<char>) -> bool {
    match m {
        Some(x) => x@ == t,
        None => false,
    }
}

/// The audit entry written is `kind` with details `t`.
pub open spec fn audit_is(a: Option<(BridgeAudit, String)>, kind: BridgeAudit, t: Seq<char>) -> bool {
    match a {
        Some(x) => x.0 == kind && x.1@ == t,
        None => false,
    }
}

/// After saving: on success record it, close the form and clear the
/// message; on failure show the error.
pub fn save_outcome(editing: bool, result: Result<(), String>, name: &str) -> (r: FormOutcome)
    ensures
        match result {
            Ok(()) => r.close_form && r.message is None && audit_is(
                r.audit,
                if editing { BridgeAudit::Update } else { BridgeAudit::Create },
                "Saved cloud bridge '"@ + name@ + "'"@,
            ),
            Err(e) => !r.close_form && r.audit is None && message_is(r.message, "Error: "@ + e@),
        },
{
    match result {
        Ok(()) => {
            let mut d = String::from_str("Saved cloud bridge '");
            push_str(&mut d, name);
            push_str(&mut d, "'");
            FormOutcome {
                audit: Some((if editing { BridgeAudit::Update } else { BridgeAudit::Create }, d)),
                message: None,
                close_form: true,
            }
        },
        Err(e) => {
            let mut m = String::from_str("Error: ");
            push_str(&mut m, e.as_str());
            FormOutcome { audit: None, message: Some(m), close_form: false }
        },
    }
}

/// How far a connection test got.
pub enum TestStage {
    /// The configuration did not make a connector.
    ConfigError(String),
    /// The connector did not connect.
    ConnectFailed(String),
    /// The test ran with this result.
    Tested(Result<(), String>),
}

/// What a connection test shows and records: a passed test is recorded.
pub fn test_outcome(stage: TestStage, name: &str) -> (r: FormOutcome)
    ensures
        !r.close_form,
        match stage {
            TestStage::ConfigError(e) => r.audit is None && message_is(r.message, "Config error: "@ + e@),
            TestStage::ConnectFailed(e) => r.audit is None && message_is(r.message, "Connect failed: "@ + e@),
            TestStage::Tested(Ok(())) => message_is(r.message, "Connection test passed."@) && audit_is(
                r.audit,
                BridgeAudit::Test,
                "Test passed for '"@ + name@ + "'"@,
            ),
            TestStage::Tested(Err(e)) => r.audit is None && message_is(r.message, "Test failed: "@ + e@),
        },
{
    match stage {
        TestStage::ConfigError(e) => {
            let mut m = String::from_str("Config error: ");
            push_str(&mut m, e.as_str());
            FormOutcome { audit: None, message: Some(m), close_form: false }
        },
        TestStage::ConnectFailed(e) => {
            let mut m = String::from_str("Connect failed: ");
            push_str(&mut m, e.as_str());
            FormOutcome { audit: None, message: Some(m), close_form: false }
        },
        TestStage::Tested(Ok(())) => {
            let mut d = String::from_str("Test passed for '");
            push_str(&mut d, name);
            push_str(&mut d, "'");
            FormOutcome {
                audit: Some((BridgeAudit::Test, d)),
                message: Some(String::from_str("Connection test passed.")),
                close_form: false,
            }
        },
        TestStage::Tested(Err(e)) => {
            let mut m = String::from_str("Test failed: ");
            push_str(&mut m, e.as_str());
            FormOutcome { audit: None, message: Some(m), close_form: false }
        },
    }
}

} // verus!
