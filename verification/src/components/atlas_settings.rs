//! Atlas settings view: the taxonomy's status, the panel's buttons and
//! messages as its jobs start and end, and the age of the last update in
//! days.

use vstd::prelude::*;

use crate::calendar::tdiv;
use crate::clock::now_unix_secs;
use crate::text::{dec_digits, int_text, opt_text, push_dec, push_int, push_str};

verus! {

/// Age in whole days of the millisecond timestamp `ms` at `now` (seconds):
/// `Unknown` for 0, `Today`, `Yesterday`, or `{n} days ago`.
pub open spec fn days_ago_text(ms: int, now: int) -> Seq<char> {
    if ms == 0 {
        "Unknown"@
    } else {
        let days_ago = tdiv(now - tdiv(ms, 1000), 86400);
        if days_ago == 0 {
            "Today"@
        } else if days_ago == 1 {
            "Yesterday"@
        } else {
            int_text(days_ago) + " days ago"@
        }
    }
}

/// Age in days of `ms` at the given time `now` (seconds since the epoch).
pub fn format_timestamp_at(ms: i64, now: i64) -> (r: String)
    ensures
        r@ == days_ago_text(ms as int, now as int),
{
    if ms == 0 {
        return String::from_str("Unknown");
    }
    let secs = ms / 1000;
    let days_ago: i128 = (now as i128 - secs as i128) / 86400;
    if days_ago == 0 {
        String::from_str("Today")
    } else if days_ago == 1 {
        String::from_str("Yesterday")
    } else {
        let mut s = String::new();
        push_int(&mut s, days_ago as i64);
        push_str(&mut s, " days ago");
        s
    }
}

/// Age in days of `ms` now.
pub fn format_timestamp(ms: i64) -> (r: String)
    ensures
        exists|now: i64| r@ == days_ago_text(ms as int, now as int),
{
    let now = now_unix_secs();
    format_timestamp_at(ms, now)
}

// ----------------------------------------------------------------
// The panel
// ----------------------------------------------------------------

/// Where the taxonomy stands: loaded into the matcher, downloaded but not
/// loaded, or absent.
#[derive(Debug, Clone, Copy, PartialEq, Eq, Structural)]
pub enum AtlasStatus {
    Loaded,
    Available,
    NotInstalled,
}

/// Where the taxonomy stands, from whether the matcher holds it and
/// whether its database is on disk.
pub fn atlas_status(loaded: bool, downloaded: bool) -> (r: AtlasStatus)
    ensures
        r == if loaded {
            AtlasStatus::Loaded
        } else if downloaded {
            AtlasStatus::Available
        } else {
            AtlasStatus::NotInstalled
        },
{
    if loaded {
        AtlasStatus::Loaded
    } else if downloaded {
        AtlasStatus::Available
    } else {
        AtlasStatus::NotInstalled
    }
}

/// The status badge: its class and text.
pub fn status_badge(s: AtlasStatus) -> (r: (&'static str, &'static str))
    ensures
        (r.0@, r.1@) == match s {
            AtlasStatus::Loaded => ("atlas-badge atlas-badge-ok"@, "Loaded"@),
            AtlasStatus::Available => ("atlas-badge atlas-badge-warn"@, "Available (not loaded)"@),
            AtlasStatus::NotInstalled => ("atlas-badge atlas-badge-off"@, "Not installed"@),
        },
{
    match s {
        AtlasStatus::Loaded => ("atlas-badge atlas-badge-ok", "Loaded"),
        AtlasStatus::Available => ("atlas-badge atlas-badge-warn", "Available (not loaded)"),
        AtlasStatus::NotInstalled => ("atlas-badge atlas-badge-off", "Not installed"),
    }
}

/// The in-memory line: how many points and equipment types the matcher
/// holds.
pub fn in_memory_text(points: usize, equipment: usize) -> (r: String)
    ensures
        r@ == dec_digits(points as nat) + " points, "@ + dec_digits(equipment as nat) + " equipment"@,
{
    let mut t = String::new();
    push_dec(&mut t, points as u64);
    push_str(&mut t, " points, ");
    push_dec(&mut t, equipment as u64);
    push_str(&mut t, " equipment");
    t
}

/// The panel's running jobs, its error and the counter that reloads the
/// local statistics.
pub struct AtlasPanel {
    pub checking: bool,
    pub downloading: bool,
    pub error: Option<String>,
    pub refresh: u32,
}

/// The message of a failed job: `{what} failed: {error}`.
pub open spec fn failed_text(what: Seq<char>, e: Seq<char>) -> Seq<char> {
    what + " failed: "@ + e
}

/// The message of a failed job (see `failed_text`).
fn failed_message(what: &str, e: &str) -> (r: String)
    ensures
        r@ == failed_text(what@, e@),
{
    let mut m = String::from_str(what);
    push_str(&mut m, " failed: ");
    push_str(&mut m, e);
    m
}

impl AtlasPanel {
    /// A panel at rest.
    pub fn new() -> (r: AtlasPanel)
        ensures
            !r.checking && !r.downloading && r.error is None && r.refresh == 0,
    {
        AtlasPanel { checking: false, downloading: false, error: None, refresh: 0 }
    }

    /// The update-check button: its label, and whether it is disabled
    /// (while either job runs).
    pub fn check_button(&self) -> (r: (&'static str, bool))
        ensures
            r.0@ == if self.checking { "Checking..."@ } else { "Check for Updates"@ },
            r.1 == (self.checking || self.downloading),
    {
        (if self.checking { "Checking..." } else { "Check for Updates" }, self.checking || self.downloading)
    }

    /// The download button: its label (an update when the data is on disk)
    /// and whether it is disabled (while either job runs).
    pub fn download_button(&self, downloaded: bool) -> (r: (&'static str, bool))
        ensures
            r.0@ == if self.downloading {
                "Downloading..."@
            } else if downloaded {
                "Update Atlas Data"@
            } else {
                "Download Atlas Data"@
            },
            r.1 == (self.downloading || self.checking),
    {
        let label = if self.downloading {
            "Downloading..."
        } else if downloaded {
            "Update Atlas Data"
        } else {
            "Download Atlas Data"
        };
        (label, self.downloading || self.checking)
    }

    /// The remove button: offered when the data is on disk, disabled while
    /// a download runs.
    pub fn remove_button(&self, downloaded: bool) -> (r: Option<bool>)
        ensures
            r == if downloaded { Some(self.downloading) } else { None::<bool> },
    {
        if downloaded { Some(self.downloading) } else { None }
    }

    /// An update check starts.
    pub fn start_check(&mut self)
        ensures
            final(self).checking,
            final(self).error is None,
            final(self).downloading == old(self).downloading,
            final(self).refresh == old(self).refresh,
    {
        self.checking = true;
        self.error = None;
    }

    /// An update check ended: on failure the panel shows why.
    pub fn finish_check(&mut self, result: Result<(), String>)
        ensures
            !final(self).checking,
            final(self).downloading == old(self).downloading,
            final(self).refresh == old(self).refresh,
            match result {
                Ok(()) => final(self).error == old(self).error,
                Err(e) => opt_text(final(self).error) == Some(failed_text("Update check"@, e@)),
            },
    {
        match result {
            Ok(()) => {},
            Err(e) => self.error = Some(failed_message("Update check", e.as_str())),
        }
        self.checking = false;
    }

    /// A download starts.
    pub fn start_download(&mut self)
        ensures
            final(self).downloading,
            final(self).error is None,
            final(self).checking == old(self).checking,
            final(self).refresh == old(self).refresh,
    {
        self.downloading = true;
        self.error = None;
    }

    /// A download ended: on failure the panel shows why; either way the
    /// local statistics reload.
    pub fn finish_download(&mut self, result: Result<(), String>)
        requires
            old(self).refresh < u32::MAX,
        ensures
            !final(self).downloading,
            final(self).checking == old(self).checking,
            final(self).refresh == old(self).refresh + 1,
            match result {
                Ok(()) => final(self).error == old(self).error,
                Err(e) => opt_text(final(self).error) == Some(failed_text("Download"@, e@)),
            },
    {
        match result {
            Ok(()) => {},
            Err(e) => self.error = Some(failed_message("Download", e.as_str())),
        }
        self.downloading = false;
        self.refresh = self.refresh + 1;
    }

    /// The data was removed, or removing it failed: on success the local
    /// statistics reload; on failure the panel shows why.
    pub fn finish_remove(&mut self, result: Result<(), String>)
        requires
            old(self).refresh < u32::MAX,
        ensures
            final(self).checking == old(self).checking,
            final(self).downloading == old(self).downloading,
            match result {
                Ok(()) => final(self).error == old(self).error && final(self).refresh == old(self).refresh + 1,
                Err(e) => opt_text(final(self).error) == Some(failed_text("Remove"@, e@)) && final(self).refresh
                    == old(self).refresh,
            },
    {
        match result {
            Ok(()) => self.refresh = self.refresh + 1,
            Err(e) => self.error = Some(failed_message("Remove", e.as_str())),
        }
    }
}

} // verus!
