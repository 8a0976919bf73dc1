//! Shared value types: the download lifecycle and the error taxonomy.

use vstd::prelude::*;

verus! {

/// Overall lifecycle of one download.
///
/// `NotStarted` until a download is begun; `InProgress` once every bucket
/// worker is launched; `Finished` when every bucket has downloaded all of
/// its bytes; `Failed` once any error has been recorded; `Cancelled` after
/// a cancel request. `Finished`, `Failed` and `Cancelled` are terminal.
#[derive(Clone, Debug)]
pub enum DownloadStatus {
    NotStarted,
    InProgress,
    Finished,
    Failed(String),
    Cancelled,
}

impl PartialEq for DownloadStatus {
    fn eq(&self, other: &DownloadStatus) -> (r: bool) {
        match (self, other) {
            (DownloadStatus::NotStarted, DownloadStatus::NotStarted) => true,
            (DownloadStatus::InProgress, DownloadStatus::InProgress) => true,
            (DownloadStatus::Finished, DownloadStatus::Finished) => true,
            (DownloadStatus::Failed(a), DownloadStatus::Failed(b)) => *a == *b,
            (DownloadStatus::Cancelled, DownloadStatus::Cancelled) => true,
            _ => false,
        }
    }
}

impl vstd::std_specs::cmp::PartialEqSpecImpl for DownloadStatus {
    open spec fn obeys_eq_spec() -> bool {
        true
    }

    open spec fn eq_spec(&self, other: &DownloadStatus) -> bool {
        match (self, other) {
            (DownloadStatus::NotStarted, DownloadStatus::NotStarted) => true,
            (DownloadStatus::InProgress, DownloadStatus::InProgress) => true,
            (DownloadStatus::Finished, DownloadStatus::Finished) => true,
            (DownloadStatus::Failed(a), DownloadStatus::Failed(b)) => a@ == b@,
            (DownloadStatus::Cancelled, DownloadStatus::Cancelled) => true,
            _ => false,
        }
    }
}

/// Why a download failed: planning (missing or zero content length),
/// destination file creation, the transport (a request or a stream read),
/// or the filesystem (a write).
#[derive(Clone, Copy, Debug, PartialEq, Eq, Structural)]
pub enum DownloadError {
    PlanningError,
    FileCreationError,
    TransportError,
    FilesystemError,
}

} // verus!
