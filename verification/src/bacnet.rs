//! The BACnet vocabulary of `rustbac-core` that the alarm view uses.

use vstd::prelude::*;

use rustbac_core::services::acknowledge_alarm::EventState;
use rustbac_core::types::ObjectType;

verus! {

#[verifier::external_type_specification]
#[verifier::external_body]
pub struct ExObjectType(ObjectType);

#[verifier::external_type_specification]
#[verifier::external_body]
pub struct ExEventState(EventState);

/// The hyphenated object-type names that `ObjectType::from_name` knows.
pub open spec fn bacnet_object_type_names() -> Seq<Seq<char>> {
    seq![
        "analog-input"@, "analog-output"@, "analog-value"@, "binary-input"@, "binary-output"@,
        "binary-value"@, "calendar"@, "command"@, "device"@, "event-enrollment"@, "file"@,
        "group"@, "loop"@, "multi-state-input"@, "multi-state-output"@, "notification-class"@,
        "program"@, "schedule"@, "averaging"@, "multi-state-value"@, "trend-log"@,
        "life-safety-point"@, "life-safety-zone"@, "accumulator"@, "pulse-converter"@,
        "event-log"@, "global-group"@, "trend-log-multiple"@, "structured-view"@, "access-door"@,
    ]
}

/// The object type that `ObjectType::from_name` gives for one of the names
/// of `bacnet_object_type_names`.
pub uninterp spec fn object_type_named(name: Seq<char>) -> ObjectType;

/// `ObjectType::from_name`: for one of the thirty names of
/// `bacnet_object_type_names` the type of that name, named
/// `object_type_named`; none for any other text. Which variant a name
/// gives is not written out: the type is opaque here.
#[verifier::external_body]
pub(crate) fn object_type_from_name(name: &str) -> (r: Option<ObjectType>)
    ensures
        r == if bacnet_object_type_names().contains(name@) {
            Some(object_type_named(name@))
        } else {
            None::<ObjectType>
        },
{
    ObjectType::from_name(name)
}

/// A BACnet object: its type and its instance number. On the wire it
/// travels as `ObjectId::new(object_type, instance)`, which packs the type
/// with the low 22 bits of the instance.
#[derive(Debug, Clone, Copy)]
pub struct BacnetObjectId {
    pub object_type: ObjectType,
    pub instance: u32,
}

/// The event state that `EventState::from_u32` gives for a code from 0 to
/// 5 (normal, fault, offnormal, high limit, low limit, life-safety alarm).
pub uninterp spec fn event_state_of_code(code: u32) -> EventState;

/// `EventState::from_u32`: for a code from 0 to 5 the state of that code,
/// named `event_state_of_code`; none for any other code. Which variant a
/// code names is not written out: the type is opaque here.
#[verifier::external_body]
pub(crate) fn event_state_from_u32(code: u32) -> (r: Option<EventState>)
    ensures
        r == if code <= 5 { Some(event_state_of_code(code)) } else { None::<EventState> },
{
    EventState::from_u32(code)
}

} // verus!
