//! How far a scan has come, and whether it should stop.

use vstd::prelude::*;

verus! {

/// What the outside sees of the scan under way.
#[derive(Debug, Clone, Copy, PartialEq, Eq, Structural)]
pub struct ScanState {
    pub in_progress: bool,
    pub cancel_requested: bool,
    pub progress_bytes: u64,
    pub progress_files: u64,
}

impl ScanState {
    /// What is seen once a scan has read so many bytes.
    pub open spec fn with_bytes(self, bytes: u64) -> ScanState {
        ScanState {
            progress_bytes: if self.progress_bytes >= bytes { self.progress_bytes } else { bytes },
            ..self
        }
    }

    /// What is seen once a scan has found so many files.
    pub open spec fn with_files(self, files: u64) -> ScanState {
        ScanState {
            progress_files: if self.progress_files >= files { self.progress_files } else { files },
            ..self
        }
    }

    /// No scan yet.
    pub fn idle() -> (state: Self)
        ensures
            state == (ScanState {
                in_progress: false,
                cancel_requested: false,
                progress_bytes: 0,
                progress_files: 0,
            }),
    {
        ScanState {
            in_progress: false,
            cancel_requested: false,
            progress_bytes: 0,
            progress_files: 0,
        }
    }

    /// A scan starts: nothing of the one before is left, not even a request to cancel it.
    pub fn begin(&mut self)
        ensures
            *final(self) == (ScanState {
                in_progress: true,
                cancel_requested: false,
                progress_bytes: 0,
                progress_files: 0,
            }),
    {
        self.cancel_requested = false;
        self.progress_bytes = 0;
        self.progress_files = 0;
        self.in_progress = true;
    }

    /// The scan ended with so many files. That number stays to be seen; the bytes do not.
    pub fn end(&mut self, files: u64)
        ensures
            *final(self) == (ScanState {
                in_progress: false,
                progress_bytes: 0,
                progress_files: files,
                ..*old(self)
            }),
    {
        self.progress_bytes = 0;
        self.progress_files = files;
        self.in_progress = false;
    }
}

/// Whether a scan is under way.
pub fn is_scan_in_progress(state: &ScanState) -> (yes: bool)
    ensures
        yes == state.in_progress,
{
    state.in_progress
}

/// Bytes of the source that the scan under way has read so far; 0 where none is under way.
pub fn scan_progress_bytes(state: &ScanState) -> (bytes: u64)
    ensures
        bytes == (if state.in_progress {
            state.progress_bytes
        } else {
            0
        }),
{
    if state.in_progress {
        state.progress_bytes
    } else {
        0
    }
}

/// Files found so far by the scan under way, or in the end by the last one.
pub fn scan_progress_files(state: &ScanState) -> (files: u64)
    ensures
        files == state.progress_files,
{
    state.progress_files
}

/// Asks the scan under way to stop. It keeps what it has found.
pub fn request_cancel(state: &mut ScanState)
    ensures
        *final(state) == (ScanState { cancel_requested: true, ..*old(state) }),
{
    state.cancel_requested = true;
}

/// Whether the scan under way was asked to stop.
pub fn cancel_requested(state: &ScanState) -> (yes: bool)
    ensures
        yes == state.cancel_requested,
{
    state.cancel_requested
}

/// The counters of one scan. They are its own, so that scans side by side do not mix; what the
/// outside sees is a copy that never goes back.
#[derive(Debug, Clone, Copy, PartialEq, Eq, Structural)]
pub struct ScanProgress {
    pub bytes: u64,
    pub files: u64,
}

impl ScanProgress {
    /// Nothing scanned yet.
    pub fn new() -> (progress: Self)
        ensures
            progress == (ScanProgress { bytes: 0, files: 0 }),
    {
        ScanProgress { bytes: 0, files: 0 }
    }

    /// Adds bytes that were read. Returns the total of this scan.
    pub fn add_bytes(&mut self, n: u64, state: &mut ScanState) -> (total: u64)
        requires
            old(self).bytes + n <= u64::MAX,
        ensures
            total == old(self).bytes + n,
            *final(self) == (ScanProgress { bytes: total, ..*old(self) }),
            *final(state) == (ScanState {
                progress_bytes: if old(state).progress_bytes >= total {
                    old(state).progress_bytes
                } else {
                    total
                },
                ..*old(state)
            }),
            *final(state) == old(state).with_bytes(total),
    {
        self.bytes = self.bytes + n;
        if self.bytes > state.progress_bytes {
            state.progress_bytes = self.bytes;
        }
        self.bytes
    }

    /// Adds files that were found.
    pub fn add_files(&mut self, n: u64, state: &mut ScanState)
        requires
            old(self).files + n <= u64::MAX,
        ensures
            *final(self) == (ScanProgress { files: (old(self).files + n) as u64, ..*old(self) }),
            *final(state) == (ScanState {
                progress_files: if old(state).progress_files >= old(self).files + n {
                    old(state).progress_files
                } else {
                    (old(self).files + n) as u64
                },
                ..*old(state)
            }),
            *final(state) == old(state).with_files((old(self).files + n) as u64),
    {
        self.files = self.files + n;
        if self.files > state.progress_files {
            state.progress_files = self.files;
        }
    }
}

/// What is seen of a scan never goes back, and reaches what the scan has counted. Counting bytes leaves
/// the files as they are, counting files leaves the bytes, and neither starts, stops or cancels
/// anything.
pub proof fn law_progress_never_goes_back(state: ScanState, count: u64)
    ensures
        state.with_bytes(count).progress_bytes >= state.progress_bytes,
        state.with_bytes(count).progress_bytes >= count,
        state.with_bytes(count).progress_bytes == count || state.with_bytes(count) == state,
        state.with_bytes(count).progress_files == state.progress_files,
        state.with_bytes(count).in_progress == state.in_progress,
        state.with_bytes(count).cancel_requested == state.cancel_requested,
        state.with_files(count).progress_files >= state.progress_files,
        state.with_files(count).progress_files >= count,
        state.with_files(count).progress_files == count || state.with_files(count) == state,
        state.with_files(count).progress_bytes == state.progress_bytes,
        state.with_files(count).in_progress == state.in_progress,
        state.with_files(count).cancel_requested == state.cancel_requested,
{
}

} // verus!
