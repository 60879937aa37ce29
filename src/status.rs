use vstd::prelude::*;

verus! {

/// Lifecycle state of a download task.
#[derive(Clone, Copy, Debug, PartialEq, Eq, Structural)]
pub enum DownloadStatus {
    Queued,
    Preparing,
    Downloading,
    Paused,
    Merging,
    Completed,
    Error,
    Cancelled,
}

/// The directed graph of permitted transitions (self-loops excluded).
pub open spec fn permitted(from: DownloadStatus, to: DownloadStatus) -> bool {
    match (from, to) {
        (DownloadStatus::Queued, DownloadStatus::Preparing) => true,
        (DownloadStatus::Queued, DownloadStatus::Cancelled) => true,
        (DownloadStatus::Preparing, DownloadStatus::Downloading) => true,
        (DownloadStatus::Preparing, DownloadStatus::Error) => true,
        (DownloadStatus::Preparing, DownloadStatus::Cancelled) => true,
        (DownloadStatus::Downloading, DownloadStatus::Merging) => true,
        (DownloadStatus::Downloading, DownloadStatus::Paused) => true,
        (DownloadStatus::Downloading, DownloadStatus::Completed) => true,
        (DownloadStatus::Downloading, DownloadStatus::Error) => true,
        (DownloadStatus::Downloading, DownloadStatus::Cancelled) => true,
        (DownloadStatus::Paused, DownloadStatus::Downloading) => true,
        (DownloadStatus::Paused, DownloadStatus::Cancelled) => true,
        (DownloadStatus::Merging, DownloadStatus::Completed) => true,
        (DownloadStatus::Merging, DownloadStatus::Error) => true,
        (DownloadStatus::Merging, DownloadStatus::Cancelled) => true,
        _ => false,
    }
}

/// A status change that may be observed: a permitted edge or no change.
pub open spec fn step_allowed(from: DownloadStatus, to: DownloadStatus) -> bool {
    permitted(from, to) || from == to
}

/// Statuses that hold a downloader slot (a paused task keeps its process).
pub open spec fn active(s: DownloadStatus) -> bool {
    s == DownloadStatus::Preparing || s == DownloadStatus::Downloading || s == DownloadStatus::Paused
        || s == DownloadStatus::Merging
}

pub open spec fn terminal(s: DownloadStatus) -> bool {
    s == DownloadStatus::Completed || s == DownloadStatus::Error || s == DownloadStatus::Cancelled
}

impl DownloadStatus {
    pub fn can_transition_to(&self, next: &DownloadStatus) -> (r: bool)
        ensures
            r == permitted(*self, *next),
    {
        match (self, next) {
            (DownloadStatus::Queued, DownloadStatus::Preparing) => true,
            (DownloadStatus::Queued, DownloadStatus::Cancelled) => true,
            (DownloadStatus::Preparing, DownloadStatus::Downloading) => true,
            (DownloadStatus::Preparing, DownloadStatus::Error) => true,
            (DownloadStatus::Preparing, DownloadStatus::Cancelled) => true,
            (DownloadStatus::Downloading, DownloadStatus::Merging) => true,
            (DownloadStatus::Downloading, DownloadStatus::Paused) => true,
            (DownloadStatus::Downloading, DownloadStatus::Completed) => true,
            (DownloadStatus::Downloading, DownloadStatus::Error) => true,
            (DownloadStatus::Downloading, DownloadStatus::Cancelled) => true,
            (DownloadStatus::Paused, DownloadStatus::Downloading) => true,
            (DownloadStatus::Paused, DownloadStatus::Cancelled) => true,
            (DownloadStatus::Merging, DownloadStatus::Completed) => true,
            (DownloadStatus::Merging, DownloadStatus::Error) => true,
            (DownloadStatus::Merging, DownloadStatus::Cancelled) => true,
            _ => false,
        }
    }

    /// Whether the task holds a downloader slot.
    pub fn is_active(&self) -> (r: bool)
        ensures
            r == active(*self),
    {
        match self {
            DownloadStatus::Preparing | DownloadStatus::Downloading | DownloadStatus::Paused
            | DownloadStatus::Merging => true,
            _ => false,
        }
    }

    /// Completed, Error and Cancelled are final.
    pub fn is_terminal(&self) -> (r: bool)
        ensures
            r == terminal(*self),
    {
        match self {
            DownloadStatus::Completed | DownloadStatus::Error | DownloadStatus::Cancelled => true,
            _ => false,
        }
    }
}

/// A terminal status admits no change other than the self-loop.
pub proof fn lemma_terminal_is_final(from: DownloadStatus, to: DownloadStatus)
    requires
        terminal(from),
        step_allowed(from, to),
    ensures
        to == from,
{
}

} // verus!
