//! Bridge configuration: the BACnet network and Modbus bus forms, the
//! configuration JSON they save, how a saved configuration fills the form
//! again, and what the lists show of it.

use vstd::prelude::*;

use crate::json::{
    entries_view, get_view, json_get, json_str, json_u64, json_view, lemma_entries_view_push, lemma_lookup_concat,
    lemma_lookup_single, lookup, str_of, u64_of, JsonValue, JsonView,
};
use crate::numparse::{law_dec_digits_parse_back, parse_u32, parse_u32_spec, parse_u64, parse_u64_spec, parse_u8, parse_u8_spec};
use crate::text::{dec_digits, push_dec, push_str, str_eq, trim, trim_chars, trimmed};

verus! {

/// A number as the JSON text of an unsigned integer.
pub open spec fn number_view(n: nat) -> JsonView {
    JsonView::Number(dec_digits(n))
}

/// One entry when `present`, none otherwise.
pub open spec fn entry_if(present: bool, k: Seq<char>, v: JsonView) -> Seq<(Seq<char>, JsonView)> {
    if present {
        seq![(k, v)]
    } else {
        seq![]
    }
}

/// An unsigned value as a JSON number.
fn number_json(n: u64) -> (r: JsonValue)
    ensures
        json_view(r) == number_view(n as nat),
{
    let mut t = String::new();
    push_dec(&mut t, n);
    JsonValue::Number(t)
}

/// Appends an entry to a JSON object's entries under construction.
fn push_entry(es: &mut Vec<(String, JsonValue)>, k: &str, v: JsonValue)
    ensures
        entries_view(final(es)@) == entries_view(old(es)@).push((k@, json_view(v))),
{
    let ghost before = es@;
    let e = (String::from_str(k), v);
    let ghost ge = e;
    es.push(e);
    proof {
        lemma_entries_view_push(before, ge);
    }
}

/// What a submitted form saves: the trimmed name, the configuration and
/// whether the bridge is enabled.
pub struct BridgeSubmission {
    pub name: String,
    pub config: JsonValue,
    pub enabled: bool,
}

/// The message for a form without a name.
pub open spec fn name_required() -> Seq<char> {
    "Name is required."@
}

// ----------------------------------------------------------------
// BACnet networks
// ----------------------------------------------------------------

/// The BACnet network form's fields, as typed.
pub struct BacnetForm {
    pub name: String,
    pub mode: String,
    pub bbmd_addr: String,
    pub serial_port: String,
    pub baud_rate: String,
    pub server_device_instance: String,
    pub enabled: bool,
}

/// An empty form for a new network: normal mode, 38400 baud, enabled.
pub fn new_bacnet_form() -> (r: BacnetForm)
    ensures
        r.name@ == Seq::<char>::empty(),
        r.mode@ == "normal"@,
        r.bbmd_addr@ == Seq::<char>::empty(),
        r.serial_port@ == Seq::<char>::empty(),
        r.baud_rate@ == "38400"@,
        r.server_device_instance@ == Seq::<char>::empty(),
        r.enabled,
{
    BacnetForm {
        name: String::new(),
        mode: String::from_str("normal"),
        bbmd_addr: String::new(),
        serial_port: String::new(),
        baud_rate: String::from_str("38400"),
        server_device_instance: String::new(),
        enabled: true,
    }
}

/// The configuration entries a BACnet form saves: the mode; the BBMD
/// address if one is given; the serial port if one is given, then its baud
/// rate if that is a `u32`; the server device instance if it is a `u32`.
/// Text fields are trimmed first; the mode is saved as it is.
pub open spec fn bacnet_entries(f: BacnetForm) -> Seq<(Seq<char>, JsonView)> {
    let bbmd = trimmed(f.bbmd_addr@);
    let sp = trimmed(f.serial_port@);
    let baud = parse_u32_spec(trimmed(f.baud_rate@));
    let sdi = parse_u32_spec(trimmed(f.server_device_instance@));
    seq![("mode"@, JsonView::Str(f.mode@))] + entry_if(bbmd.len() > 0, "bbmd_addr"@, JsonView::Str(bbmd))
        + entry_if(sp.len() > 0, "serial_port"@, JsonView::Str(sp))
        + entry_if(sp.len() > 0 && baud is Some, "baud_rate"@, number_view(baud->0 as nat))
        + entry_if(sdi is Some, "server_device_instance"@, number_view(sdi->0 as nat))
}

/// What submitting a BACnet form gives: the name is required; otherwise
/// the trimmed name and the configuration object.
pub open spec fn bacnet_submission(f: BacnetForm) -> Result<(Seq<char>, JsonView), Seq<char>> {
    if trimmed(f.name@).len() == 0 {
        Err(name_required())
    } else {
        Ok((trimmed(f.name@), JsonView::Object(bacnet_entries(f))))
    }
}

/// Checks and turns a BACnet form into what is saved (see
/// `bacnet_submission`).
pub fn submit_bacnet_form(f: &BacnetForm) -> (r: Result<BridgeSubmission, String>)
    ensures
        match r {
            Ok(s) => bacnet_submission(*f) == Ok::<(Seq<char>, JsonView), Seq<char>>((s.name@, json_view(s.config)))
                && s.enabled == f.enabled,
            Err(e) => bacnet_submission(*f) == Err::<(Seq<char>, JsonView), Seq<char>>(e@),
        },
{
    let name = trim(f.name.as_str());
    if name.as_str().unicode_len() == 0 {
        return Err(String::from_str("Name is required."));
    }
    let mut es: Vec<(String, JsonValue)> = Vec::new();
    push_entry(&mut es, "mode", JsonValue::Str(f.mode.clone()));
    let bbmd = trim(f.bbmd_addr.as_str());
    let ghost e1 = entries_view(es@);
    if bbmd.as_str().unicode_len() > 0 {
        push_entry(&mut es, "bbmd_addr", JsonValue::Str(bbmd));
    }
    let ghost e2 = entries_view(es@);
    let sp = trim(f.serial_port.as_str());
    let sp_given = sp.as_str().unicode_len() > 0;
    let baud = parse_u32(&trim_chars(f.baud_rate.as_str()));
    if sp_given {
        push_entry(&mut es, "serial_port", JsonValue::Str(sp));
    }
    let ghost e3 = entries_view(es@);
    if sp_given {
        match baud {
            Some(b) => push_entry(&mut es, "baud_rate", number_json(b as u64)),
            None => {},
        }
    }
    let ghost e4 = entries_view(es@);
    match parse_u32(&trim_chars(f.server_device_instance.as_str())) {
        Some(v) => push_entry(&mut es, "server_device_instance", number_json(v as u64)),
        None => {},
    }
    proof {
        let sb = trimmed(f.bbmd_addr@);
        let ss = trimmed(f.serial_port@);
        let pb = parse_u32_spec(trimmed(f.baud_rate@));
        let pv = parse_u32_spec(trimmed(f.server_device_instance@));
        assert(e2 =~= e1 + entry_if(sb.len() > 0, "bbmd_addr"@, JsonView::Str(sb)));
        assert(e3 =~= e2 + entry_if(ss.len() > 0, "serial_port"@, JsonView::Str(ss)));
        assert(e4 =~= e3 + entry_if(ss.len() > 0 && pb is Some, "baud_rate"@, number_view(pb->0 as nat)));
        assert(entries_view(es@) =~= e4 + entry_if(pv is Some, "server_device_instance"@, number_view(pv->0 as nat)));
    }
    Ok(BridgeSubmission { name, config: JsonValue::Object(es), enabled: f.enabled })
}

/// The form's text fields: mode, BBMD address, serial port, baud rate and
/// server device instance.
pub open spec fn bacnet_fields(f: BacnetForm) -> (Seq<char>, Seq<char>, Seq<char>, Seq<char>, Seq<char>) {
    (f.mode@, f.bbmd_addr@, f.serial_port@, f.baud_rate@, f.server_device_instance@)
}

/// The fields after opening a saved network for editing, from the form's
/// current fields and the saved configuration (none if it did not parse):
/// the mode if it is a string (else as it was); the address and port as
/// strings or empty; the baud rate and instance as numbers (else as they
/// were). Without a configuration every field stays as it was.
pub open spec fn loaded_bacnet_fields(
    cur: (Seq<char>, Seq<char>, Seq<char>, Seq<char>, Seq<char>),
    cfg: Option<JsonView>,
) -> (Seq<char>, Seq<char>, Seq<char>, Seq<char>, Seq<char>) {
    match cfg {
        None => cur,
        Some(j) => (
            match str_of(get_view(j, "mode"@)) {
                Some(s) => s,
                None => cur.0,
            },
            match str_of(get_view(j, "bbmd_addr"@)) {
                Some(s) => s,
                None => seq![],
            },
            match str_of(get_view(j, "serial_port"@)) {
                Some(s) => s,
                None => seq![],
            },
            match u64_of(get_view(j, "baud_rate"@)) {
                Some(b) => dec_digits(b as nat),
                None => cur.3,
            },
            match u64_of(get_view(j, "server_device_instance"@)) {
                Some(v) => dec_digits(v as nat),
                None => cur.4,
            },
        ),
    }
}

/// A string value as the form shows it, or empty.
fn str_or_empty(v: Option<&JsonValue>) -> (r: String)
    ensures
        r@ == match str_of(match v { Some(x) => Some(json_view(*x)), None => None }) {
            Some(s) => s,
            None => Seq::<char>::empty(),
        },
{
    match json_str(v) {
        Some(s) => s,
        None => String::new(),
    }
}

/// A string value, or the field as it was.
fn str_or_keep(v: Option<&JsonValue>, cur: &String) -> (r: String)
    ensures
        r@ == match str_of(match v { Some(x) => Some(json_view(*x)), None => None }) {
            Some(s) => s,
            None => cur@,
        },
{
    match json_str(v) {
        Some(s) => s,
        None => cur.clone(),
    }
}

/// A number value as decimal text, or the field as it was.
fn number_or_keep(v: Option<&JsonValue>, cur: &String) -> (r: String)
    ensures
        r@ == match u64_of(match v { Some(x) => Some(json_view(*x)), None => None }) {
            Some(n) => dec_digits(n as nat),
            None => cur@,
        },
{
    match json_u64(v) {
        Some(n) => {
            let mut t = String::new();
            push_dec(&mut t, n);
            t
        },
        None => cur.clone(),
    }
}

/// Opens a saved network for editing: its name and enabled flag, and the
/// fields that its configuration fills (see `loaded_bacnet_fields`).
pub fn load_bacnet_form(cur: &BacnetForm, name: &String, enabled: bool, config: &Option<JsonValue>) -> (r: BacnetForm)
    ensures
        r.name@ == name@,
        r.enabled == enabled,
        bacnet_fields(r) == loaded_bacnet_fields(
            bacnet_fields(*cur),
            match *config { Some(v) => Some(json_view(v)), None => None },
        ),
{
    match config {
        None => BacnetForm {
            name: name.clone(),
            mode: cur.mode.clone(),
            bbmd_addr: cur.bbmd_addr.clone(),
            serial_port: cur.serial_port.clone(),
            baud_rate: cur.baud_rate.clone(),
            server_device_instance: cur.server_device_instance.clone(),
            enabled,
        },
        Some(v) => {
            let k_mode = String::from_str("mode");
            let k_bbmd = String::from_str("bbmd_addr");
            let k_sp = String::from_str("serial_port");
            let k_baud = String::from_str("baud_rate");
            let k_sdi = String::from_str("server_device_instance");
            let mode = str_or_keep(json_get(v, &k_mode), &cur.mode);
            let bbmd = str_or_empty(json_get(v, &k_bbmd));
            let sp = str_or_empty(json_get(v, &k_sp));
            let baud = number_or_keep(json_get(v, &k_baud), &cur.baud_rate);
            let sdi = number_or_keep(json_get(v, &k_sdi), &cur.server_device_instance);
            BacnetForm {
                name: name.clone(),
                mode,
                bbmd_addr: bbmd,
                serial_port: sp,
                baud_rate: baud,
                server_device_instance: sdi,
                enabled,
            }
        },
    }
}

/// A plain-digit number reads back as its value.
pub proof fn lemma_u64_of_number(n: nat)
    requires
        n <= u64::MAX,
    ensures
        u64_of(Some(number_view(n))) == Some(n as u64),
{
    crate::numparse::lemma_dec_digits_value(n);
    law_dec_digits_parse_back(n, u64::MAX as int);
    assert(crate::numparse::is_digit(dec_digits(n)[0]));
}

/// Looking a key up in an optional entry.
pub proof fn lemma_lookup_entry_if(present: bool, k0: Seq<char>, v: JsonView, k: Seq<char>)
    ensures
        lookup(entry_if(present, k0, v), k) == (if present && k0 == k { Some(v) } else { None }),
{
    if present {
        lemma_lookup_single(k0, v, k);
    }
}

/// The keys of the configuration objects differ from one another.
pub proof fn lemma_config_keys_differ()
    ensures
        "mode"@ != "bbmd_addr"@,
        "mode"@ != "serial_port"@,
        "mode"@ != "baud_rate"@,
        "mode"@ != "server_device_instance"@,
        "bbmd_addr"@ != "serial_port"@,
        "bbmd_addr"@ != "baud_rate"@,
        "bbmd_addr"@ != "server_device_instance"@,
        "serial_port"@ != "baud_rate"@,
        "serial_port"@ != "server_device_instance"@,
        "baud_rate"@ != "server_device_instance"@,
        "mode"@ != "default_timeout_ms"@,
        "mode"@ != "default_retry_count"@,
        "serial_port"@ != "default_timeout_ms"@,
        "serial_port"@ != "default_retry_count"@,
        "baud_rate"@ != "default_timeout_ms"@,
        "baud_rate"@ != "default_retry_count"@,
        "default_timeout_ms"@ != "default_retry_count"@,
{
    reveal_strlit("mode");
    reveal_strlit("bbmd_addr");
    reveal_strlit("serial_port");
    reveal_strlit("baud_rate");
    reveal_strlit("server_device_instance");
    reveal_strlit("default_timeout_ms");
    reveal_strlit("default_retry_count");
    assert("mode"@.len() == 4);
    assert("bbmd_addr"@.len() == 9);
    assert("serial_port"@.len() == 11);
    assert("baud_rate"@.len() == 9);
    assert("server_device_instance"@.len() == 22);
    assert("default_timeout_ms"@.len() == 18);
    assert("default_retry_count"@.len() == 19);
    assert("bbmd_addr"@[1] != "baud_rate"@[1]);
}

/// Saving a BACnet form and opening the saved network again shows what
/// was saved: the mode, the trimmed address and port, the baud rate when
/// a port and a valid rate were given, the instance when it was valid;
/// the other fields stay as the form had them.
pub proof fn law_bacnet_form_round_trip(f: BacnetForm, cur: (Seq<char>, Seq<char>, Seq<char>, Seq<char>, Seq<char>))
    requires
        trimmed(f.name@).len() > 0,
    ensures
        bacnet_submission(f) matches Ok((n, j)) && n == trimmed(f.name@) && loaded_bacnet_fields(cur, Some(j)) == (
            f.mode@,
            trimmed(f.bbmd_addr@),
            trimmed(f.serial_port@),
            match parse_u32_spec(trimmed(f.baud_rate@)) {
                Some(b) => if trimmed(f.serial_port@).len() > 0 { dec_digits(b as nat) } else { cur.3 },
                None => cur.3,
            },
            match parse_u32_spec(trimmed(f.server_device_instance@)) {
                Some(v) => dec_digits(v as nat),
                None => cur.4,
            },
        ),
{
    let bbmd = trimmed(f.bbmd_addr@);
    let sp = trimmed(f.serial_port@);
    let baud = parse_u32_spec(trimmed(f.baud_rate@));
    let sdi = parse_u32_spec(trimmed(f.server_device_instance@));
    let a = seq![("mode"@, JsonView::Str(f.mode@))];
    let b = entry_if(bbmd.len() > 0, "bbmd_addr"@, JsonView::Str(bbmd));
    let c = entry_if(sp.len() > 0, "serial_port"@, JsonView::Str(sp));
    let d = entry_if(sp.len() > 0 && baud is Some, "baud_rate"@, number_view(baud->0 as nat));
    let e = entry_if(sdi is Some, "server_device_instance"@, number_view(sdi->0 as nat));
    lemma_config_keys_differ();
    let keys = seq!["mode"@, "bbmd_addr"@, "serial_port"@, "baud_rate"@, "server_device_instance"@];
    assert forall|i: int| 0 <= i < 5 implies lookup(a + b + c + d + e, #[trigger] keys[i]) == {
        if lookup(a, keys[i]) is Some {
            lookup(a, keys[i])
        } else if lookup(b, keys[i]) is Some {
            lookup(b, keys[i])
        } else if lookup(c, keys[i]) is Some {
            lookup(c, keys[i])
        } else if lookup(d, keys[i]) is Some {
            lookup(d, keys[i])
        } else {
            lookup(e, keys[i])
        }
    } by {
        let k = keys[i];
        lemma_lookup_concat(a, b, k);
        lemma_lookup_concat(a + b, c, k);
        lemma_lookup_concat(a + b + c, d, k);
        lemma_lookup_concat(a + b + c + d, e, k);
    }
    assert forall|i: int| 0 <= i < 5 implies {
        &&& lookup(a, #[trigger] keys[i]) == (if i == 0 { Some(JsonView::Str(f.mode@)) } else { None })
        &&& lookup(b, keys[i]) == (if i == 1 && bbmd.len() > 0 { Some(JsonView::Str(bbmd)) } else { None })
        &&& lookup(c, keys[i]) == (if i == 2 && sp.len() > 0 { Some(JsonView::Str(sp)) } else { None })
        &&& lookup(d, keys[i]) == (if i == 3 && sp.len() > 0 && baud is Some { Some(number_view(baud->0 as nat)) } else { None })
        &&& lookup(e, keys[i]) == (if i == 4 && sdi is Some { Some(number_view(sdi->0 as nat)) } else { None })
    } by {
        let k = keys[i];
        lemma_lookup_single("mode"@, JsonView::Str(f.mode@), k);
        lemma_lookup_entry_if(bbmd.len() > 0, "bbmd_addr"@, JsonView::Str(bbmd), k);
        lemma_lookup_entry_if(sp.len() > 0, "serial_port"@, JsonView::Str(sp), k);
        lemma_lookup_entry_if(sp.len() > 0 && baud is Some, "baud_rate"@, number_view(baud->0 as nat), k);
        lemma_lookup_entry_if(sdi is Some, "server_device_instance"@, number_view(sdi->0 as nat), k);
    }
    assert(bacnet_entries(f) == a + b + c + d + e);
    let j = JsonView::Object(bacnet_entries(f));
    assert(get_view(j, keys[0]) == Some(JsonView::Str(f.mode@)));
    assert(get_view(j, keys[1]) == (if bbmd.len() > 0 { Some(JsonView::Str(bbmd)) } else { None }));
    assert(get_view(j, keys[2]) == (if sp.len() > 0 { Some(JsonView::Str(sp)) } else { None }));
    assert(get_view(j, keys[3]) == (if sp.len() > 0 && baud is Some { Some(number_view(baud->0 as nat)) } else { None }));
    assert(get_view(j, keys[4]) == (if sdi is Some { Some(number_view(sdi->0 as nat)) } else { None }));
    if baud is Some {
        lemma_u64_of_number(baud->0 as nat);
    }
    if sdi is Some {
        lemma_u64_of_number(sdi->0 as nat);
    }
    if bbmd.len() == 0 {
        assert(bbmd =~= Seq::<char>::empty());
    }
    if sp.len() == 0 {
        assert(sp =~= Seq::<char>::empty());
    }
}

// ----------------------------------------------------------------
// Modbus buses
// ----------------------------------------------------------------

/// The Modbus bus form's fields, as typed.
pub struct ModbusForm {
    pub name: String,
    pub mode: String,
    pub serial_port: String,
    pub baud_rate: String,
    pub timeout_ms: String,
    pub retry_count: String,
    pub enabled: bool,
}

/// An empty form for a new bus: TCP, 9600 baud, 5000 ms timeout, 3
/// retries, enabled.
pub fn new_modbus_form() -> (r: ModbusForm)
    ensures
        r.name@ == Seq::<char>::empty(),
        r.mode@ == "tcp"@,
        r.serial_port@ == Seq::<char>::empty(),
        r.baud_rate@ == "9600"@,
        r.timeout_ms@ == "5000"@,
        r.retry_count@ == "3"@,
        r.enabled,
{
    ModbusForm {
        name: String::new(),
        mode: String::from_str("tcp"),
        serial_port: String::new(),
        baud_rate: String::from_str("9600"),
        timeout_ms: String::from_str("5000"),
        retry_count: String::from_str("3"),
        enabled: true,
    }
}

/// The configuration entries a Modbus form saves: the mode; for RTU with
/// a serial port given, the port and then its baud rate if that is a
/// `u32`; the default timeout if it is a `u64`; the default retry count if
/// it is a `u8`. Text fields are trimmed first; the mode is saved as it is.
pub open spec fn modbus_entries(f: ModbusForm) -> Seq<(Seq<char>, JsonView)> {
    let sp = trimmed(f.serial_port@);
    let serial = f.mode@ == "rtu"@ && sp.len() > 0;
    let baud = parse_u32_spec(trimmed(f.baud_rate@));
    let timeout = parse_u64_spec(trimmed(f.timeout_ms@));
    let retry = parse_u8_spec(trimmed(f.retry_count@));
    seq![("mode"@, JsonView::Str(f.mode@))] + entry_if(serial, "serial_port"@, JsonView::Str(sp))
        + entry_if(serial && baud is Some, "baud_rate"@, number_view(baud->0 as nat))
        + entry_if(timeout is Some, "default_timeout_ms"@, number_view(timeout->0 as nat))
        + entry_if(retry is Some, "default_retry_count"@, number_view(retry->0 as nat))
}

/// What submitting a Modbus form gives: the name is required; otherwise
/// the trimmed name and the configuration object.
pub open spec fn modbus_submission(f: ModbusForm) -> Result<(Seq<char>, JsonView), Seq<char>> {
    if trimmed(f.name@).len() == 0 {
        Err(name_required())
    } else {
        Ok((trimmed(f.name@), JsonView::Object(modbus_entries(f))))
    }
}

/// Checks and turns a Modbus form into what is saved (see
/// `modbus_submission`).
pub fn submit_modbus_form(f: &ModbusForm) -> (r: Result<BridgeSubmission, String>)
    ensures
        match r {
            Ok(s) => modbus_submission(*f) == Ok::<(Seq<char>, JsonView), Seq<char>>((s.name@, json_view(s.config)))
                && s.enabled == f.enabled,
            Err(e) => modbus_submission(*f) == Err::<(Seq<char>, JsonView), Seq<char>>(e@),
        },
{
    let name = trim(f.name.as_str());
    if name.as_str().unicode_len() == 0 {
        return Err(String::from_str("Name is required."));
    }
    let mut es: Vec<(String, JsonValue)> = Vec::new();
    push_entry(&mut es, "mode", JsonValue::Str(f.mode.clone()));
    let ghost e1 = entries_view(es@);
    let sp = trim(f.serial_port.as_str());
    let serial = str_eq(f.mode.as_str(), "rtu") && sp.as_str().unicode_len() > 0;
    let baud = parse_u32(&trim_chars(f.baud_rate.as_str()));
    if serial {
        push_entry(&mut es, "serial_port", JsonValue::Str(sp));
        match baud {
            Some(b) => push_entry(&mut es, "baud_rate", number_json(b as u64)),
            None => {},
        }
    }
    let ghost e3 = entries_view(es@);
    match parse_u64(&trim_chars(f.timeout_ms.as_str())) {
        Some(t) => push_entry(&mut es, "default_timeout_ms", number_json(t)),
        None => {},
    }
    let ghost e4 = entries_view(es@);
    match parse_u8(&trim_chars(f.retry_count.as_str())) {
        Some(n) => push_entry(&mut es, "default_retry_count", number_json(n as u64)),
        None => {},
    }
    proof {
        let ss = trimmed(f.serial_port@);
        let ser = f.mode@ == "rtu"@ && ss.len() > 0;
        let pb = parse_u32_spec(trimmed(f.baud_rate@));
        let pt = parse_u64_spec(trimmed(f.timeout_ms@));
        let pr = parse_u8_spec(trimmed(f.retry_count@));
        assert(e3 =~= e1 + entry_if(ser, "serial_port"@, JsonView::Str(ss)) + entry_if(
            ser && pb is Some,
            "baud_rate"@,
            number_view(pb->0 as nat),
        ));
        assert(e4 =~= e3 + entry_if(pt is Some, "default_timeout_ms"@, number_view(pt->0 as nat)));
        assert(entries_view(es@) =~= e4 + entry_if(pr is Some, "default_retry_count"@, number_view(pr->0 as nat)));
    }
    Ok(BridgeSubmission { name, config: JsonValue::Object(es), enabled: f.enabled })
}

/// The form's text fields: mode, serial port, baud rate, timeout and
/// retry count.
pub open spec fn modbus_fields(f: ModbusForm) -> (Seq<char>, Seq<char>, Seq<char>, Seq<char>, Seq<char>) {
    (f.mode@, f.serial_port@, f.baud_rate@, f.timeout_ms@, f.retry_count@)
}

/// The fields after opening a saved bus for editing (see
/// `loaded_bacnet_fields`): the mode if it is a string, the port as a
/// string or empty, the baud rate, timeout and retry count as numbers
/// (else as they were).
pub open spec fn loaded_modbus_fields(
    cur: (Seq<char>, Seq<char>, Seq<char>, Seq<char>, Seq<char>),
    cfg: Option<JsonView>,
) -> (Seq<char>, Seq<char>, Seq<char>, Seq<char>, Seq<char>) {
    match cfg {
        None => cur,
        Some(j) => (
            match str_of(get_view(j, "mode"@)) {
                Some(s) => s,
                None => cur.0,
            },
            match str_of(get_view(j, "serial_port"@)) {
                Some(s) => s,
                None => seq![],
            },
            match u64_of(get_view(j, "baud_rate"@)) {
                Some(b) => dec_digits(b as nat),
                None => cur.2,
            },
            match u64_of(get_view(j, "default_timeout_ms"@)) {
                Some(t) => dec_digits(t as nat),
                None => cur.3,
            },
            match u64_of(get_view(j, "default_retry_count"@)) {
                Some(n) => dec_digits(n as nat),
                None => cur.4,
            },
        ),
    }
}

/// Opens a saved bus for editing: its name and enabled flag, and the
/// fields that its configuration fills (see `loaded_modbus_fields`).
pub fn load_modbus_form(cur: &ModbusForm, name: &String, enabled: bool, config: &Option<JsonValue>) -> (r: ModbusForm)
    ensures
        r.name@ == name@,
        r.enabled == enabled,
        modbus_fields(r) == loaded_modbus_fields(
            modbus_fields(*cur),
            match *config { Some(v) => Some(json_view(v)), None => None },
        ),
{
    match config {
        None => ModbusForm {
            name: name.clone(),
            mode: cur.mode.clone(),
            serial_port: cur.serial_port.clone(),
            baud_rate: cur.baud_rate.clone(),
            timeout_ms: cur.timeout_ms.clone(),
            retry_count: cur.retry_count.clone(),
            enabled,
        },
        Some(v) => {
            let k_mode = String::from_str("mode");
            let k_sp = String::from_str("serial_port");
            let k_baud = String::from_str("baud_rate");
            let k_timeout = String::from_str("default_timeout_ms");
            let k_retry = String::from_str("default_retry_count");
            ModbusForm {
                name: name.clone(),
                mode: str_or_keep(json_get(v, &k_mode), &cur.mode),
                serial_port: str_or_empty(json_get(v, &k_sp)),
                baud_rate: number_or_keep(json_get(v, &k_baud), &cur.baud_rate),
                timeout_ms: number_or_keep(json_get(v, &k_timeout), &cur.timeout_ms),
                retry_count: number_or_keep(json_get(v, &k_retry), &cur.retry_count),
                enabled,
            }
        },
    }
}

/// Saving a Modbus form and opening the saved bus again shows what was
/// saved: the mode; the trimmed port for RTU with a port (else empty); the
/// baud rate, timeout and retry count that were valid; the other fields
/// stay as the form had them.
pub proof fn law_modbus_form_round_trip(f: ModbusForm, cur: (Seq<char>, Seq<char>, Seq<char>, Seq<char>, Seq<char>))
    requires
        trimmed(f.name@).len() > 0,
    ensures
        modbus_submission(f) matches Ok((n, j)) && n == trimmed(f.name@) && loaded_modbus_fields(cur, Some(j)) == ({
            let sp = trimmed(f.serial_port@);
            let serial = f.mode@ == "rtu"@ && sp.len() > 0;
            (
                f.mode@,
                if serial { sp } else { seq![] },
                match parse_u32_spec(trimmed(f.baud_rate@)) {
                    Some(b) => if serial { dec_digits(b as nat) } else { cur.2 },
                    None => cur.2,
                },
                match parse_u64_spec(trimmed(f.timeout_ms@)) {
                    Some(t) => dec_digits(t as nat),
                    None => cur.3,
                },
                match parse_u8_spec(trimmed(f.retry_count@)) {
                    Some(r) => dec_digits(r as nat),
                    None => cur.4,
                },
            )
        }),
{
    let sp = trimmed(f.serial_port@);
    let serial = f.mode@ == "rtu"@ && sp.len() > 0;
    let baud = parse_u32_spec(trimmed(f.baud_rate@));
    let timeout = parse_u64_spec(trimmed(f.timeout_ms@));
    let retry = parse_u8_spec(trimmed(f.retry_count@));
    let a = seq![("mode"@, JsonView::Str(f.mode@))];
    let c = entry_if(serial, "serial_port"@, JsonView::Str(sp));
    let d = entry_if(serial && baud is Some, "baud_rate"@, number_view(baud->0 as nat));
    let t = entry_if(timeout is Some, "default_timeout_ms"@, number_view(timeout->0 as nat));
    let e = entry_if(retry is Some, "default_retry_count"@, number_view(retry->0 as nat));
    lemma_config_keys_differ();
    let keys = seq!["mode"@, "serial_port"@, "baud_rate"@, "default_timeout_ms"@, "default_retry_count"@];
    assert forall|i: int| 0 <= i < 5 implies lookup(a + c + d + t + e, #[trigger] keys[i]) == {
        if lookup(a, keys[i]) is Some {
            lookup(a, keys[i])
        } else if lookup(c, keys[i]) is Some {
            lookup(c, keys[i])
        } else if lookup(d, keys[i]) is Some {
            lookup(d, keys[i])
        } else if lookup(t, keys[i]) is Some {
            lookup(t, keys[i])
        } else {
            lookup(e, keys[i])
        }
    } by {
        let k = keys[i];
        lemma_lookup_concat(a, c, k);
        lemma_lookup_concat(a + c, d, k);
        lemma_lookup_concat(a + c + d, t, k);
        lemma_lookup_concat(a + c + d + t, e, k);
    }
    assert forall|i: int| 0 <= i < 5 implies {
        &&& lookup(a, #[trigger] keys[i]) == (if i == 0 { Some(JsonView::Str(f.mode@)) } else { None })
        &&& lookup(c, keys[i]) == (if i == 1 && serial { Some(JsonView::Str(sp)) } else { None })
        &&& lookup(d, keys[i]) == (if i == 2 && serial && baud is Some { Some(number_view(baud->0 as nat)) } else { None })
        &&& lookup(t, keys[i]) == (if i == 3 && timeout is Some { Some(number_view(timeout->0 as nat)) } else { None })
        &&& lookup(e, keys[i]) == (if i == 4 && retry is Some { Some(number_view(retry->0 as nat)) } else { None })
    } by {
        let k = keys[i];
        lemma_lookup_single("mode"@, JsonView::Str(f.mode@), k);
        lemma_lookup_entry_if(serial, "serial_port"@, JsonView::Str(sp), k);
        lemma_lookup_entry_if(serial && baud is Some, "baud_rate"@, number_view(baud->0 as nat), k);
        lemma_lookup_entry_if(timeout is Some, "default_timeout_ms"@, number_view(timeout->0 as nat), k);
        lemma_lookup_entry_if(retry is Some, "default_retry_count"@, number_view(retry->0 as nat), k);
    }
    assert(modbus_entries(f) == a + c + d + t + e);
    let j = JsonView::Object(modbus_entries(f));
    assert(get_view(j, keys[0]) == Some(JsonView::Str(f.mode@)));
    assert(get_view(j, keys[1]) == (if serial { Some(JsonView::Str(sp)) } else { None }));
    assert(get_view(j, keys[2]) == (if serial && baud is Some { Some(number_view(baud->0 as nat)) } else { None }));
    assert(get_view(j, keys[3]) == (if timeout is Some { Some(number_view(timeout->0 as nat)) } else { None }));
    assert(get_view(j, keys[4]) == (if retry is Some { Some(number_view(retry->0 as nat)) } else { None }));
    if baud is Some {
        lemma_u64_of_number(baud->0 as nat);
    }
    if timeout is Some {
        lemma_u64_of_number(timeout->0 as nat);
    }
    if retry is Some {
        lemma_u64_of_number(retry->0 as nat);
    }
}

// ----------------------------------------------------------------
// Lists, form layout and messages
// ----------------------------------------------------------------

/// The kind of bridge a form or list is about.
#[derive(Debug, Clone, Copy, PartialEq, Eq, Structural)]
pub enum BridgeKind {
    Bacnet,
    Modbus,
}

/// What a BACnet network's row shows of its configuration (none if it
/// did not parse): the mode (`normal` by default) and the address: the
/// first of the BBMD address, serial port and hub endpoint that is set,
/// if it is a string, else a dash.
pub open spec fn bacnet_row_view(cfg: Option<JsonView>) -> (Seq<char>, Seq<char>) {
    let j = match cfg {
        Some(j) => j,
        None => JsonView::Null,
    };
    let addr = if get_view(j, "bbmd_addr"@) is Some {
        get_view(j, "bbmd_addr"@)
    } else if get_view(j, "serial_port"@) is Some {
        get_view(j, "serial_port"@)
    } else {
        get_view(j, "hub_endpoint"@)
    };
    (
        match str_of(get_view(j, "mode"@)) {
            Some(s) => s,
            None => "normal"@,
        },
        match str_of(addr) {
            Some(s) => s,
            None => "—"@,
        },
    )
}

/// The mode and address a BACnet network's row shows (see
/// `bacnet_row_view`).
pub fn bacnet_row(cfg: &Option<JsonValue>) -> (r: (String, String))
    ensures
        (r.0@, r.1@) == bacnet_row_view(match *cfg { Some(v) => Some(json_view(v)), None => None }),
{
    let null = JsonValue::Null;
    let j = match cfg {
        Some(v) => v,
        None => &null,
    };
    let mode = match json_str(json_get(j, &String::from_str("mode"))) {
        Some(s) => s,
        None => String::from_str("normal"),
    };
    let bbmd = json_get(j, &String::from_str("bbmd_addr"));
    let addr_value = match bbmd {
        Some(x) => Some(x),
        None => match json_get(j, &String::from_str("serial_port")) {
            Some(x) => Some(x),
            None => json_get(j, &String::from_str("hub_endpoint")),
        },
    };
    let addr = match json_str(addr_value) {
        Some(s) => s,
        None => String::from_str("—"),
    };
    (mode, addr)
}

/// What a Modbus bus's row shows of its configuration: the mode (`tcp` by
/// default) and the serial port, or a note that TCP is set per device.
pub open spec fn modbus_row_view(cfg: Option<JsonView>) -> (Seq<char>, Seq<char>) {
    let j = match cfg {
        Some(j) => j,
        None => JsonView::Null,
    };
    (
        match str_of(get_view(j, "mode"@)) {
            Some(s) => s,
            None => "tcp"@,
        },
        match str_of(get_view(j, "serial_port"@)) {
            Some(s) => s,
            None => "(TCP — set per-device)"@,
        },
    )
}

/// The mode and port a Modbus bus's row shows (see `modbus_row_view`).
pub fn modbus_row(cfg: &Option<JsonValue>) -> (r: (String, String))
    ensures
        (r.0@, r.1@) == modbus_row_view(match *cfg { Some(v) => Some(json_view(v)), None => None }),
{
    let null = JsonValue::Null;
    let j = match cfg {
        Some(v) => v,
        None => &null,
    };
    let mode = match json_str(json_get(j, &String::from_str("mode"))) {
        Some(s) => s,
        None => String::from_str("tcp"),
    };
    let port = match json_str(json_get(j, &String::from_str("serial_port"))) {
        Some(s) => s,
        None => String::from_str("(TCP — set per-device)"),
    };
    (mode, port)
}

/// Which optional fields the form shows for a mode: `(address, serial
/// port)`. A BACnet network asks for the BBMD or hub address unless it is
/// normal or MS/TP, and for a serial port on MS/TP; a Modbus bus asks for
/// a serial port (and baud rate) on RTU.
pub fn form_layout(kind: BridgeKind, mode: &str) -> (r: (bool, bool))
    ensures
        r == match kind {
            BridgeKind::Bacnet => (mode@ != "normal"@ && mode@ != "mstp"@, mode@ == "mstp"@),
            BridgeKind::Modbus => (false, mode@ == "rtu"@),
        },
{
    match kind {
        BridgeKind::Bacnet => {
            let serial = str_eq(mode, "mstp");
            let normal = str_eq(mode, "normal");
            (!normal && !serial, serial)
        },
        BridgeKind::Modbus => (false, str_eq(mode, "rtu")),
    }
}

/// The form's heading.
pub fn form_title(kind: BridgeKind, editing: bool) -> (r: &'static str)
    ensures
        r@ == match kind {
            BridgeKind::Bacnet => if editing { "Edit BACnet Network"@ } else { "New BACnet Network"@ },
            BridgeKind::Modbus => if editing { "Edit Modbus Bus"@ } else { "New Modbus Bus"@ },
        },
{
    match kind {
        BridgeKind::Bacnet => if editing { "Edit BACnet Network" } else { "New BACnet Network" },
        BridgeKind::Modbus => if editing { "Edit Modbus Bus" } else { "New Modbus Bus" },
    }
}

/// What a bridge of this kind is called in messages.
pub open spec fn kind_noun(kind: BridgeKind) -> Seq<char> {
    match kind {
        BridgeKind::Bacnet => "BACnet network"@,
        BridgeKind::Modbus => "Modbus bus"@,
    }
}

/// The noun of a kind (see `kind_noun`).
fn noun(kind: BridgeKind) -> (r: &'static str)
    ensures
        r@ == kind_noun(kind),
{
    match kind {
        BridgeKind::Bacnet => "BACnet network",
        BridgeKind::Modbus => "Modbus bus",
    }
}

/// The notice after saving: the change needs a restart.
pub fn saved_notice(kind: BridgeKind, name: &str) -> (r: String)
    ensures
        r@ == kind_noun(kind) + " `"@ + name@ + "` saved — restart bms-store to activate"@,
{
    let mut out = String::from_str(noun(kind));
    push_str(&mut out, " `");
    push_str(&mut out, name);
    push_str(&mut out, "` saved — restart bms-store to activate");
    out
}

/// The notice after removing a bridge.
pub fn removed_notice(kind: BridgeKind, name: &str) -> (r: String)
    ensures
        r@ == kind_noun(kind) + " `"@ + name@ + "` removed — restart bms-store"@,
{
    let mut out = String::from_str(noun(kind));
    push_str(&mut out, " `");
    push_str(&mut out, name);
    push_str(&mut out, "` removed — restart bms-store");
    out
}

/// The error after a failed removal.
pub fn delete_failed_notice(kind: BridgeKind, error: &str) -> (r: String)
    ensures
        r@ == "Failed to delete "@ + kind_noun(kind) + ": "@ + error@,
{
    let mut out = String::from_str("Failed to delete ");
    push_str(&mut out, noun(kind));
    push_str(&mut out, ": ");
    push_str(&mut out, error);
    out
}

} // verus!
