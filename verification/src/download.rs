//! Progress reporting of a download, for the caller driving the transfer.
use vstd::prelude::*;

verus! {

/// A snapshot of a running download.
#[derive(Debug, Clone, Copy)]
pub struct DownloadProgress {
    /// Milliseconds since the transfer started.
    pub elapsed_ms: u64,
    /// The announced size, when the origin gave one.
    pub total_size: Option<u64>,
    /// Bytes received so far, never beyond the announced size.
    pub downloaded: u64,
}

/// What a download driver tells about its progress. Implemented by the
/// caller; a silent implementation is fine.
pub trait DownloadProgressCallback {
    fn init(&mut self, total_size: Option<u64>);

    fn update(&mut self, state: DownloadProgress);

    fn done(&mut self);
}

} // verus!
