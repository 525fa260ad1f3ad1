//! API key management: the create form's checks and choices, and what the
//! key list and the revoke confirmation show of a key.

use vstd::prelude::*;

use crate::calendar::{format_ms, unsigned_secs, utc_text};
use crate::text::{push_str, str_eq, trimmed, trim_chars};

verus! {

/// The role a key acts with.
#[derive(Debug, Clone, Copy, PartialEq, Eq, Structural)]
pub enum KeyRole {
    Admin,
    Operator,
    Viewer,
}

/// The role the form's role choice selects: `Admin`, `Operator`, anything
/// else a viewer.
pub fn parse_role_choice(v: &str) -> (r: KeyRole)
    ensures
        r == (if v@ == "Admin"@ {
            KeyRole::Admin
        } else if v@ == "Operator"@ {
            KeyRole::Operator
        } else {
            KeyRole::Viewer
        }),
{
    if str_eq(v, "Admin") {
        KeyRole::Admin
    } else if str_eq(v, "Operator") {
        KeyRole::Operator
    } else {
        KeyRole::Viewer
    }
}

/// Whether the form can create a key: not while one is being created, and
/// only with a name that is not blank.
pub fn can_create(name: &str, creating: bool) -> (r: bool)
    ensures
        r == (!creating && trimmed(name@).len() > 0),
{
    !creating && trim_chars(name).len() > 0
}

/// The badge class and label of a key's status.
pub fn key_status(disabled: bool) -> (r: (&'static str, &'static str))
    ensures
        r.0@ == (if disabled {
            "apikeys-status-badge apikeys-status-disabled"@
        } else {
            "apikeys-status-badge apikeys-status-active"@
        }),
        r.1@ == (if disabled { "Disabled"@ } else { "Active"@ }),
{
    if disabled {
        ("apikeys-status-badge apikeys-status-disabled", "Disabled")
    } else {
        ("apikeys-status-badge apikeys-status-active", "Active")
    }
}

/// When a key was last used, as UTC text, or `Never`.
pub fn last_used_text(last_used_ms: Option<i64>) -> (r: String)
    ensures
        r@ == match last_used_ms {
            Some(ms) => utc_text(unsigned_secs(ms)),
            None => "Never"@,
        },
{
    match last_used_ms {
        Some(ms) => format_ms(ms),
        None => String::from_str("Never"),
    }
}

/// The error shown when a key could not be created.
pub fn create_failed_text(error: &str) -> (r: String)
    ensures
        r@ == "Failed to create key: "@ + error@,
{
    let mut out = String::from_str("Failed to create key: ");
    push_str(&mut out, error);
    out
}

/// The revoke confirmation's title.
pub fn revoke_title(name: &str) -> (r: String)
    ensures
        r@ == "Revoke API Key: "@ + name@,
{
    let mut out = String::from_str("Revoke API Key: ");
    push_str(&mut out, name);
    out
}

/// What the revoke confirmation shows of the key before revoking: its
/// prefix and, in brackets, its role as shown.
pub fn revoke_before_text(prefix: &str, role_text: &str) -> (r: String)
    ensures
        r@ == prefix@ + " ("@ + role_text@ + ")"@,
{
    let mut out = String::from_str(prefix);
    push_str(&mut out, " (");
    push_str(&mut out, role_text);
    push_str(&mut out, ")");
    out
}

} // verus!
