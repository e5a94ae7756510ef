//! Records exchanged with the frontend.
use vstd::prelude::*;

verus! {

/// A frame on the timeline.
#[derive(Debug, Clone)]
pub struct FrameSummary {
    pub frame_id: i64,
    pub timestamp_ms: u64,
    pub window_title: String,
    pub app_id: String,
    pub thumbnail_path: Option<String>,
}

/// Everything known about one frame.
#[derive(Debug, Clone)]
pub struct FrameDetail {
    pub frame_id: i64,
    pub timestamp_ms: u64,
    pub window_title: String,
    pub app_id: String,
    pub browser_url: Option<String>,
    pub ocr_text: Option<String>,
    pub pii_flags: Option<Vec<String>>,
    pub segment_file: String,
    pub segment_offset: i32,
}

} // verus!
