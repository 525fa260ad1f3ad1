//! The application shell: which screen the project gate shows, how the
//! main window is laid out, where the logic engine's writes go, when a
//! point counts as stale, and what a point write's result changes.

use vstd::prelude::*;

use crate::text::{
    before_first, chars_of, int_text, lemma_text_lt_order, opt_text, push_char, push_int, push_str, split_once_char,
    starts_with, text_less, text_lt,
};

verus! {

// ----------------------------------------------------------------
// The project gate
// ----------------------------------------------------------------

/// The screen the project gate shows.
#[derive(Debug, Clone, Copy, PartialEq, Eq, Structural)]
pub enum GateScreen {
    /// The project failed to load.
    LoadError,
    /// Still finding out whether the project has users.
    Loading,
    /// The project has no user yet: create the administrator.
    AdminSetup,
    Login,
    /// Logged in while the platform still starts.
    Initializing,
    /// The main application.
    App,
}

/// The screen the project gate shows, from whether loading failed,
/// whether the project still needs its first user (unknown while it is
/// being checked), whether someone is logged in and whether the platform
/// is up.
pub open spec fn gate_screen_of(failed: bool, needs_setup: Option<bool>, logged_in: bool, platform_ready: bool) -> GateScreen {
    if failed {
        GateScreen::LoadError
    } else if needs_setup is None {
        GateScreen::Loading
    } else if needs_setup == Some(true) && !logged_in {
        GateScreen::AdminSetup
    } else if !logged_in {
        GateScreen::Login
    } else if !platform_ready {
        GateScreen::Initializing
    } else {
        GateScreen::App
    }
}

/// The screen the project gate shows (see `gate_screen_of`).
pub fn gate_screen(failed: bool, needs_setup: Option<bool>, logged_in: bool, platform_ready: bool) -> (r: GateScreen)
    ensures
        r == gate_screen_of(failed, needs_setup, logged_in, platform_ready),
{
    if failed {
        GateScreen::LoadError
    } else if needs_setup.is_none() {
        GateScreen::Loading
    } else if needs_setup == Some(true) && !logged_in {
        GateScreen::AdminSetup
    } else if !logged_in {
        GateScreen::Login
    } else if !platform_ready {
        GateScreen::Initializing
    } else {
        GateScreen::App
    }
}

/// The main application is shown only to a logged-in user of a loaded
/// project whose platform is up.
pub proof fn law_app_needs_login_and_platform(failed: bool, needs_setup: Option<bool>, logged_in: bool, platform_ready: bool)
    ensures
        gate_screen_of(failed, needs_setup, logged_in, platform_ready) == GateScreen::App ==> !failed && needs_setup is Some
            && logged_in && platform_ready,
{
}

// ----------------------------------------------------------------
// The main window
// ----------------------------------------------------------------

/// Which panes the main window shows: the configuration view takes the
/// whole body; other views show the sidebar when it is visible, the main
/// content and the details pane when it is open.
pub struct Layout {
    pub config: bool,
    pub sidebar: bool,
    pub main: bool,
    pub details: bool,
}

/// Which panes the main window shows (see `Layout`).
pub fn layout(config_view: bool, sidebar_visible: bool, detail_open: bool) -> (r: Layout)
    ensures
        r.config == config_view,
        r.sidebar == (!config_view && sidebar_visible),
        r.main == !config_view,
        r.details == (!config_view && detail_open),
{
    Layout {
        config: config_view,
        sidebar: !config_view && sidebar_visible,
        main: !config_view,
        details: !config_view && detail_open,
    }
}

// ----------------------------------------------------------------
// Writes
// ----------------------------------------------------------------

/// Where a write of the logic engine to node `node_id` goes: the device
/// before the first `/` and the point after it; a node id without `/` is
/// not written.
pub fn write_target(node_id: &str) -> (r: Option<(String, String)>)
    ensures
        match r {
            Some(p) => node_id@.contains('/') && p.0@ == before_first(node_id@, '/') && p.1@ == node_id@.skip(
                before_first(node_id@, '/').len() + 1int,
            ),
            None => !node_id@.contains('/'),
        },
{
    split_once_char(node_id, '/')
}

/// Whether a point is stale: its last value is older than five minutes.
/// The age is given as whole seconds and the nanoseconds past them.
pub fn is_stale(age_secs: u64, age_subsec_nanos: u32) -> (r: bool)
    ensures
        r == (age_secs > 300 || (age_secs == 300 && age_subsec_nanos > 0)),
{
    age_secs > 300 || (age_secs == 300 && age_subsec_nanos > 0)
}

/// What the result of a point write changes: the write error shown, the
/// failure the audit entry records, and whether the local store takes the
/// written value (and marks the point overridden).
pub struct WriteOutcome {
    pub write_error: Option<String>,
    pub audit_failure: Option<String>,
    pub update_store: bool,
}

/// What the result of a point write changes: a failed write shows and
/// audits `Write failed: {error}` and leaves the store alone; a write that
/// went through clears the error and updates the store.
pub fn on_write_result(result: Result<(), String>) -> (r: WriteOutcome)
    ensures
        match result {
            Ok(()) => r.write_error is None && r.audit_failure is None && r.update_store,
            Err(e) => r.write_error matches Some(m) && m@ == "Write failed: "@ + e@ && r.audit_failure == r.write_error
                && !r.update_store,
        },
{
    match result {
        Ok(()) => WriteOutcome { write_error: None, audit_failure: None, update_store: true },
        Err(e) => {
            let mut m = String::from_str("Write failed: ");
            push_str(&mut m, e.as_str());
            let a = m.clone();
            WriteOutcome { write_error: Some(m), audit_failure: Some(a), update_store: false }
        },
    }
}

/// The id of a written point in the audit log: `{device}/{point}`.
pub fn point_resource_id(device_id: &str, point_id: &str) -> (r: String)
    ensures
        r@ == device_id@ + "/"@ + point_id@,
{
    let mut s = String::from_str(device_id);
    push_str(&mut s, "/");
    push_str(&mut s, point_id);
    s
}

/// Who the audit log says wrote: the logged-in user's id and name, or
/// `system` for both when no one is logged in.
pub fn write_actor(user: &Option<(String, String)>) -> (r: (String, String))
    ensures
        match user {
            Some(u) => r.0@ == u.0@ && r.1@ == u.1@,
            None => r.0@ == "system"@ && r.1@ == "system"@,
        },
{
    match user {
        Some(u) => (u.0.clone(), u.1.clone()),
        None => (String::from_str("system"), String::from_str("system")),
    }
}

// ----------------------------------------------------------------
// The device summary
// ----------------------------------------------------------------

/// The point id of a point node of a device: its node id without the
/// leading `{device}/`, or the whole node id when it lacks that prefix.
pub open spec fn point_key_of(node_id: Seq<char>, device_id: Seq<char>) -> Seq<char> {
    let prefix = device_id + "/"@;
    if prefix.is_prefix_of(node_id) { node_id.skip(prefix.len() as int) } else { node_id }
}

/// The point id of a point node of a device (see `point_key_of`).
pub fn point_key(node_id: &str, device_id: &str) -> (r: String)
    ensures
        r@ == point_key_of(node_id@, device_id@),
{
    let mut prefix = String::from_str(device_id);
    push_str(&mut prefix, "/");
    if starts_with(node_id, prefix.as_str()) {
        let n = prefix.unicode_len();
        let cs = chars_of(node_id);
        let mut out = String::new();
        let mut i: usize = n;
        while i < cs.len()
            invariant
                n <= i <= cs@.len(),
                cs@ == node_id@,
                out@ == node_id@.subrange(n as int, i as int),
            decreases cs.len() - i,
        {
            push_char(&mut out, cs[i]);
            i = i + 1;
            assert(out@ =~= node_id@.subrange(n as int, i as int));
        }
        assert(node_id@.skip(n as int) =~= node_id@.subrange(n as int, node_id@.len() as int));
        out
    } else {
        String::from_str(node_id)
    }
}

/// A reading of a point as the summary shows it: a switch, a whole
/// number, or a decimal already written with one decimal place.
pub enum Reading {
    Bool(bool),
    Integer(i64),
    Decimal(String),
}

/// The text of a reading: `ON` or `OFF`, the number, or the written
/// decimal, followed by a space and the units when the point has them; a
/// dash when the point has no reading.
pub open spec fn reading_text(r: Option<Reading>, units: Option<Seq<char>>) -> Seq<char> {
    match r {
        None => "—"@,
        Some(v) => {
            let t = match v {
                Reading::Bool(b) => if b { "ON"@ } else { "OFF"@ },
                Reading::Integer(i) => int_text(i as int),
                Reading::Decimal(d) => d@,
            };
            match units {
                Some(u) => t + " "@ + u,
                None => t,
            }
        },
    }
}

/// The text of a reading (see `reading_text`).
pub fn reading_string(r: &Option<Reading>, units: &Option<String>) -> (out: String)
    ensures
        out@ == reading_text(*r, opt_text(*units)),
{
    match r {
        None => String::from_str("—"),
        Some(v) => {
            let mut t = String::new();
            match v {
                Reading::Bool(b) => push_str(&mut t, if *b { "ON" } else { "OFF" }),
                Reading::Integer(i) => push_int(&mut t, *i),
                Reading::Decimal(d) => push_str(&mut t, d.as_str()),
            }
            match units {
                Some(u) => {
                    push_str(&mut t, " ");
                    push_str(&mut t, u.as_str());
                },
                None => {},
            }
            t
        },
    }
}

/// A row of the device summary: point id, name and reading text.
pub struct SummaryRow {
    pub point_id: String,
    pub name: String,
    pub value: String,
}

/// Rows in name order (text order, ties allowed).
pub open spec fn rows_by_name(rows: Seq<SummaryRow>) -> bool {
    forall|a: int, b: int| 0 <= a < b < rows.len() ==> !text_lt((#[trigger] rows[b]).name@, (#[trigger] rows[a]).name@)
}

/// `out` holds each row of `rows` once, `out[k]` being `rows[perm[k]]`,
/// with rows of equal name kept in their original order.
pub open spec fn stable_by_name(rows: Seq<SummaryRow>, out: Seq<SummaryRow>, perm: Seq<int>) -> bool {
    &&& perm.len() == out.len() == rows.len()
    &&& forall|k: int| 0 <= k < out.len() ==> 0 <= #[trigger] perm[k] < rows.len() && out[k] == rows[perm[k]]
    &&& forall|a: int, b: int| #![trigger perm[a], perm[b]] 0 <= a < b < out.len() ==> perm[a] != perm[b]
    &&& forall|a: int, b: int|
        #![trigger perm[a], perm[b]]
        0 <= a < b < out.len() && out[a].name@ == out[b].name@ ==> perm[a] < perm[b]
}

/// A copy of a row.
fn copy_row(row: &SummaryRow) -> (r: SummaryRow)
    ensures
        r == *row,
{
    SummaryRow { point_id: row.point_id.clone(), name: row.name.clone(), value: row.value.clone() }
}

/// The summary's rows sorted by name, rows of equal name in their
/// original order.
pub fn sort_rows_by_name(rows: &Vec<SummaryRow>) -> (r: Vec<SummaryRow>)
    ensures
        rows_by_name(r@),
        exists|perm: Seq<int>| stable_by_name(rows@, r@, perm),
{
    let ghost input = rows@;
    let mut out: Vec<SummaryRow> = Vec::new();
    let ghost mut perm: Seq<int> = Seq::empty();
    let mut i: usize = 0;
    let n = rows.len();
    while i < n
        invariant
            i <= n,
            n == input.len(),
            input == rows@,
            out@.len() == i,
            perm.len() == i,
            rows_by_name(out@),
            forall|k: int| 0 <= k < i ==> 0 <= #[trigger] perm[k] < i && out@[k] == input[perm[k]],
            forall|a: int, b: int| #![trigger perm[a], perm[b]] 0 <= a < b < i ==> perm[a] != perm[b],
            forall|a: int, b: int|
                #![trigger perm[a], perm[b]]
                0 <= a < b < i && out@[a].name@ == out@[b].name@ ==> perm[a] < perm[b],
        decreases n - i,
    {
        let x = copy_row(&rows[i]);
        let xc = chars_of(x.name.as_str());
        let mut p: usize = 0;
        while p < out.len() && !text_less(&xc, &chars_of(out[p].name.as_str()))
            invariant
                p <= out@.len(),
                xc@ == x.name@,
                forall|k: int| 0 <= k < p ==> !text_lt(x.name@, (#[trigger] out@[k]).name@),
            decreases out.len() - p,
        {
            p = p + 1;
        }
        proof {
            assert forall|k: int| p <= k < out@.len() implies text_lt(x.name@, (#[trigger] out@[k]).name@) by {
                assert(text_lt(x.name@, out@[p as int].name@));
                if k > p {
                    assert(!text_lt(out@[k].name@, out@[p as int].name@));
                    lemma_text_lt_order(out@[p as int].name@, out@[k].name@, out@[k].name@);
                    lemma_text_lt_order(x.name@, out@[p as int].name@, out@[k].name@);
                }
            }
        }
        let ghost old_out = out@;
        let ghost old_perm = perm;
        let ghost xv = x;
        out.insert(p, x);
        proof {
            perm = perm.insert(p as int, i as int);
            old_out.insert_ensures(p as int, xv);
            old_perm.insert_ensures(p as int, i as int);
            assert(xv == input[i as int]);
            assert forall|a: int, b: int| 0 <= a < b < i + 1 implies !text_lt((#[trigger] out@[b]).name@, (#[trigger] out@[a]).name@) by {
                if a < p && b < p {
                    assert(out@[a] == old_out[a] && out@[b] == old_out[b]);
                } else if a < p && b == p {
                    assert(out@[a] == old_out[a]);
                } else if a < p {
                    assert(out@[a] == old_out[a] && out@[b] == old_out[b - 1]);
                } else if a == p {
                    assert(out@[b] == old_out[b - 1]);
                    lemma_text_lt_order(xv.name@, old_out[b - 1].name@, xv.name@);
                } else {
                    assert(out@[a] == old_out[a - 1] && out@[b] == old_out[b - 1]);
                }
            }
            assert forall|k: int| 0 <= k < i + 1 implies 0 <= #[trigger] perm[k] < i + 1 && out@[k] == input[perm[k]] by {
                if k > p {
                    assert(perm[k] == old_perm[k - 1]);
                    assert(out@[k] == old_out[k - 1]);
                }
            }
            assert forall|a: int, b: int| #![trigger perm[a], perm[b]] 0 <= a < b < i + 1 implies perm[a] != perm[b] by {
                let a0 = if a > p { a - 1 } else { a };
                let b0 = if b > p { b - 1 } else { b };
                if a != p && b != p {
                    assert(perm[a] == old_perm[a0]);
                    assert(perm[b] == old_perm[b0]);
                } else if a == p {
                    assert(perm[b] == old_perm[b0]);
                } else {
                    assert(perm[a] == old_perm[a0]);
                }
            }
            assert forall|a: int, b: int|
                #![trigger perm[a], perm[b]]
                0 <= a < b < i + 1 && out@[a].name@ == out@[b].name@ implies perm[a] < perm[b] by {
                let a0 = if a > p { a - 1 } else { a };
                let b0 = if b > p { b - 1 } else { b };
                if a != p && b != p {
                    assert(out@[a] == old_out[a0] && out@[b] == old_out[b0]);
                    assert(perm[a] == old_perm[a0]);
                    assert(perm[b] == old_perm[b0]);
                } else if a == p {
                    assert(out@[b] == old_out[b0]);
                    lemma_text_lt_order(xv.name@, xv.name@, xv.name@);
                } else {
                    assert(perm[a] == old_perm[a0]);
                }
            }
        }
        i = i + 1;
    }
    assert(stable_by_name(input, out@, perm));
    out
}

} // verus!
