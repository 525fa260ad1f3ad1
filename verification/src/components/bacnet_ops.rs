//! The BACnet management and commissioning panels of an accepted device:
//! which object types the commissioning panel creates and deletes, how a
//! delete request is read, and the labels of event and trend-log rows.

use vstd::prelude::*;

use crate::bacnet::{bacnet_object_type_names, object_type_from_name, object_type_named, BacnetObjectId};
use crate::numparse::{parse_u32, parse_u32_spec};
use crate::text::{chars_of, dec_digits, push_dec, push_str, str_eq};

use rustbac_core::types::ObjectType;

verus! {

/// The protocol name of an object type that the commissioning panel
/// offers, by the value of its choice: analog, binary and multistate
/// values, analog inputs and outputs.
pub open spec fn offered_type_name(choice: Seq<char>) -> Option<Seq<char>> {
    if choice == "AnalogValue"@ {
        Some("analog-value"@)
    } else if choice == "BinaryValue"@ {
        Some("binary-value"@)
    } else if choice == "MultiStateValue"@ {
        Some("multi-state-value"@)
    } else if choice == "AnalogInput"@ {
        Some("analog-input"@)
    } else if choice == "AnalogOutput"@ {
        Some("analog-output"@)
    } else {
        None
    }
}

/// The protocol name of an offered object type (see `offered_type_name`).
fn offered_name(choice: &str) -> (r: Option<&'static str>)
    ensures
        match r {
            Some(n) => offered_type_name(choice@) == Some(n@),
            None => offered_type_name(choice@) is None,
        },
{
    if str_eq(choice, "AnalogValue") {
        Some("analog-value")
    } else if str_eq(choice, "BinaryValue") {
        Some("binary-value")
    } else if str_eq(choice, "MultiStateValue") {
        Some("multi-state-value")
    } else if str_eq(choice, "AnalogInput") {
        Some("analog-input")
    } else if str_eq(choice, "AnalogOutput") {
        Some("analog-output")
    } else {
        None
    }
}

/// The object type the commissioning panel creates for a choice: the
/// protocol's type of that name for an offered choice, nothing otherwise.
pub fn create_object_type(choice: &str) -> (r: Option<ObjectType>)
    ensures
        r == match offered_type_name(choice@) {
            Some(n) => Some(object_type_named(n)),
            None => None::<ObjectType>,
        },
{
    match offered_name(choice) {
        Some(n) => {
            proof {
                reveal_strlit("analog-value");
                reveal_strlit("binary-value");
                reveal_strlit("multi-state-value");
                reveal_strlit("analog-input");
                reveal_strlit("analog-output");
                assert(bacnet_object_type_names()[2] == "analog-value"@);
                assert(bacnet_object_type_names()[5] == "binary-value"@);
                assert(bacnet_object_type_names()[19] == "multi-state-value"@);
                assert(bacnet_object_type_names()[0] == "analog-input"@);
                assert(bacnet_object_type_names()[1] == "analog-output"@);
            }
            object_type_from_name(n)
        },
        None => None,
    }
}

/// What the delete button asks for: the instance typed must be a number
/// (else `Invalid instance`); for a choice that is not offered nothing is
/// deleted; otherwise the object of that type and instance, with the label
/// `{choice}-{instance}` that the panel reports it by.
pub fn delete_object_request(instance_text: &str, choice: &str) -> (r: Result<Option<(BacnetObjectId, String)>, &'static str>)
    ensures
        match r {
            Err(m) => parse_u32_spec(instance_text@) is None && m@ == "Invalid instance"@,
            Ok(None) => parse_u32_spec(instance_text@) is Some && offered_type_name(choice@) is None,
            Ok(Some(p)) => parse_u32_spec(instance_text@) matches Some(n) && offered_type_name(choice@) matches Some(name)
                && p.0 == (BacnetObjectId { object_type: object_type_named(name), instance: n })
                && p.1@ == choice@ + "-"@ + dec_digits(n as nat),
        },
{
    let cs = chars_of(instance_text);
    let n = match parse_u32(&cs) {
        Some(v) => v,
        None => {
            return Err("Invalid instance");
        },
    };
    match create_object_type(choice) {
        Some(t) => {
            let id = BacnetObjectId { object_type: t, instance: n };
            let mut label = String::from_str(choice);
            push_str(&mut label, "-");
            push_dec(&mut label, n as u64);
            Ok(Some((id, label)))
        },
        None => Ok(None),
    }
}

/// The report after an object was deleted.
pub fn deleted_text(label: &str) -> (r: String)
    ensures
        r@ == "Deleted "@ + label@,
{
    let mut m = String::from_str("Deleted ");
    push_str(&mut m, label);
    m
}

/// The acknowledgement column of an event row: unacknowledged when the
/// acknowledged-transitions bits are empty or their first byte is zero,
/// acknowledged otherwise, unknown when the device did not say.
pub fn ack_label(bits: &Option<Vec<u8>>) -> (r: &'static str)
    ensures
        r@ == match bits {
            Some(b) => if b@.len() == 0 || b@[0] == 0 { "Unacked"@ } else { "Acked"@ },
            None => "Unknown"@,
        },
{
    match bits {
        Some(b) => if b.len() == 0 || b[0] == 0 { "Unacked" } else { "Acked" },
        None => "Unknown",
    }
}

/// The name of a trend log row: the object's name, or `TrendLog-{instance}`
/// when it has none.
pub fn trend_log_name(name: &Option<String>, instance: u32) -> (r: String)
    ensures
        r@ == match name {
            Some(n) => n@,
            None => "TrendLog-"@ + dec_digits(instance as nat),
        },
{
    match name {
        Some(n) => n.clone(),
        None => {
            let mut t = String::from_str("TrendLog-");
            push_dec(&mut t, instance as u64);
            t
        },
    }
}

} // verus!
