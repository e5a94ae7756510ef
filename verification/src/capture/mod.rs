//! Screen capture: frame metadata, the capture loop's decisions, and the
//! segment bookkeeping of the video encoder.
pub mod activity;
pub mod encoder;
pub mod metadata;
pub mod pipeline;

use vstd::prelude::*;

verus! {

/// Metadata attached to each captured frame.
#[derive(Debug, Clone)]
pub struct FrameMetadata {
    pub timestamp_ms: u64,
    pub active_window_title: String,
    pub app_bundle_id: String,
    pub browser_url: Option<String>,
    pub display_index: u8,
}

/// The current state of the capture engine.
#[derive(Debug, Clone, Copy, PartialEq, Eq, Structural)]
pub enum CaptureState {
    Idle,
    Recording,
    Paused,
}

/// Raw captured frame data (RGBA).
pub struct CapturedFrame {
    pub data: Vec<u8>,
    pub width: u32,
    pub height: u32,
    pub metadata: FrameMetadata,
}

} // verus!
