//! Storage: frame records, retention and encrypted segment files.
pub mod encrypted;
pub mod retention;
pub mod segments;

use vstd::prelude::*;

verus! {

/// Storage usage statistics for the frontend.
#[derive(Debug, Clone)]
pub struct StorageUsage {
    pub total_frames: u64,
    pub total_sessions: u64,
    pub disk_usage_bytes: u64,
    pub oldest_frame_ms: Option<u64>,
    pub newest_frame_ms: Option<u64>,
}

/// A row from the frames table.
#[derive(Debug, Clone)]
pub struct FrameRow {
    pub id: i64,
    pub session_id: i64,
    pub timestamp_ms: u64,
    pub segment_file: String,
    pub segment_offset: i32,
    pub window_title: Option<String>,
    pub app_id: Option<String>,
    pub browser_url: Option<String>,
    pub ocr_text: Option<String>,
}

} // verus!
