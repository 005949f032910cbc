//! Scanning a source for known files and settling where each of them ends.

pub mod agreement;
pub mod aligned;
pub mod assemble;
pub mod buffer;
pub mod coverage;
pub mod ends;
pub mod footer_search;
pub mod found;
pub mod nesting;
pub mod order;
pub mod progress;
pub mod refine;
pub mod run;
pub mod seen;
pub mod segment_scan;
pub mod segments;
pub mod sizes;
pub mod source_size;
pub mod suppress;
pub mod walk_audio;
pub mod walk_boxes;
pub mod whole;

pub use crate::scanner::assemble::ScanResult;
pub use crate::scanner::ends::EndResult;
pub use crate::scanner::found::{FoundFile, Integrity};
pub use crate::scanner::progress::{
    cancel_requested, is_scan_in_progress, request_cancel, scan_progress_bytes,
    scan_progress_files, ScanProgress, ScanState,
};
pub use crate::scanner::segments::{
    calculate_segments, max_signature_reach, select_thread_count, Segment,
};
pub use crate::scanner::suppress::suppress_contained;
