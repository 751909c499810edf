//! The checks made once at start-up, before the dashboard takes over the
//! terminal: the poll interval, and what a first fetch says about the
//! repository and the focused epic.
use vstd::prelude::*;

use crate::model::Snapshot;
use crate::text::{chars_equal, chars_of, contains, contains_chars, spec_to_lowercase, to_lowercase};

verus! {

/// The poll interval in seconds: as asked, but at least one second.
pub fn poll_interval(secs: u64) -> (r: u64)
    ensures
        r == if secs >= 1 {
            secs
        } else {
            1
        },
{
    if secs >= 1 {
        secs
    } else {
        1
    }
}

/// What the first fetch says about starting the dashboard.
#[derive(Debug, Clone, PartialEq, Eq)]
pub enum Preflight {
    /// Go ahead.
    Ready,
    /// The focused bead is of the given type, not an epic.
    NotAnEpic { kind: String },
    /// The directory has no beads database.
    NoDatabase,
    /// The focused epic does not exist.
    EpicNotFound,
    /// Some other failure; its message is shown as it is.
    Failed,
}

/// The verdict on a first fetch that succeeded: when an epic is focused,
/// the root of the first component must be an epic.
pub open spec fn spec_snapshot_verdict(focused: bool, snap: Snapshot) -> Option<Seq<char>> {
    if focused && snap.components@.len() > 0 && snap.components@[0].root.issue_type@ != "epic"@ {
        Some(snap.components@[0].root.issue_type@)
    } else {
        None
    }
}

/// `Ready`, or `NotAnEpic` with the type of the focused bead.
pub fn check_snapshot(focused: bool, snap: &Snapshot) -> (r: Preflight)
    ensures
        match spec_snapshot_verdict(focused, *snap) {
            None => r == Preflight::Ready,
            Some(kind) => r matches Preflight::NotAnEpic { kind: k } && k@ == kind,
        },
{
    if !focused || snap.components.len() == 0 {
        return Preflight::Ready;
    }
    let kind = &snap.components[0].root.issue_type;
    let v = chars_of(kind.as_str());
    let epic = chars_of("epic");
    let same = chars_equal(&v, &epic);
    if same {
        Preflight::Ready
    } else {
        Preflight::NotAnEpic { kind: kind.clone() }
    }
}

/// The verdict on a failed first fetch, given its message lowercased.
pub open spec fn spec_failure_verdict(focused: bool, lower: Seq<char>) -> Preflight {
    if contains_chars(lower, "no beads database"@) {
        Preflight::NoDatabase
    } else if focused && contains_chars(lower, "not found"@) {
        Preflight::EpicNotFound
    } else {
        Preflight::Failed
    }
}

/// Classifies a failed first fetch by its lowercased message.
pub fn classify_lowered(focused: bool, lower: &str) -> (r: Preflight)
    ensures
        r == spec_failure_verdict(focused, lower@),
{
    let m = chars_of(lower);
    let no_db = chars_of("no beads database");
    if contains(&m, &no_db) {
        return Preflight::NoDatabase;
    }
    let not_found = chars_of("not found");
    if focused && contains(&m, &not_found) {
        return Preflight::EpicNotFound;
    }
    Preflight::Failed
}

/// Classifies a failed first fetch by its message, ignoring case.
pub fn classify_failure(focused: bool, message: &str) -> (r: Preflight)
    ensures
        r == spec_failure_verdict(focused, spec_to_lowercase(message@)),
{
    let lower = to_lowercase(message);
    classify_lowered(focused, lower.as_str())
}

} // verus!
