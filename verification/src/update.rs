//! The one line that tells the player how the check for a newer release
//! went.

use vstd::prelude::*;

verus! {

/// How a finished check for a newer release ended.
#[derive(Clone, Debug)]
pub enum UpdateStatus {
    /// The running version, which is the latest.
    UpToDate(String),
    /// The version that was installed in place of the running one.
    Updated(String),
    /// The check could not be made.
    Failed,
}

/// The line for each way a check can end.
pub open spec fn update_text(status: UpdateStatus) -> Seq<char> {
    match status {
        UpdateStatus::UpToDate(version) => "Welcome! You are running the latest version: "@
            + version@,
        UpdateStatus::Updated(version) => "Welcome! You have been updated to: "@ + version@
            + ", please restart!"@,
        UpdateStatus::Failed => "Can't check for a new version."@,
    }
}

/// The line to show for `status`.
pub fn update(status: &UpdateStatus) -> (message: String)
    ensures
        message@ == update_text(*status),
{
    match status {
        UpdateStatus::UpToDate(version) => String::from_str(
            "Welcome! You are running the latest version: ",
        ).concat(version.as_str()),
        UpdateStatus::Updated(version) => String::from_str(
            "Welcome! You have been updated to: ",
        ).concat(version.as_str()).concat(", please restart!"),
        UpdateStatus::Failed => String::from_str("Can't check for a new version."),
    }
}

} // verus!
