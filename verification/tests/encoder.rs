use workshadow::capture::encoder::{
    choose_encoder, hardware_encoder_candidates, row_copies, segment_file, sidecar_file, HardwareEncoder,
    SegmentTimeline, SidecarEntry,
};
use workshadow::capture::FrameMetadata;

#[test]
fn encoder_names() {
    assert_eq!(HardwareEncoder::VideoToolbox.ffmpeg_encoder_name(), "hevc_videotoolbox");
    assert_eq!(HardwareEncoder::Nvenc.ffmpeg_encoder_name(), "hevc_nvenc");
    assert_eq!(HardwareEncoder::Qsv.ffmpeg_encoder_name(), "hevc_qsv");
    assert_eq!(HardwareEncoder::Amf.ffmpeg_encoder_name(), "hevc_amf");
    assert_eq!(HardwareEncoder::Software.ffmpeg_encoder_name(), "libx265");
}

#[test]
fn encoder_choice_follows_priority() {
    assert_eq!(hardware_encoder_candidates().len(), 4);
    assert_eq!(choose_encoder(&[false, true, true, false]), HardwareEncoder::Nvenc);
    assert_eq!(choose_encoder(&[true, true, true, true]), HardwareEncoder::VideoToolbox);
    assert_eq!(choose_encoder(&[false, false, false, true]), HardwareEncoder::Amf);
    assert_eq!(choose_encoder(&[false, false, false, false]), HardwareEncoder::Software);
}

#[test]
fn sidecar_entry_copies_metadata() {
    let meta = FrameMetadata {
        timestamp_ms: 1234567890,
        active_window_title: "VS Code".to_string(),
        app_bundle_id: "com.microsoft.vscode".to_string(),
        browser_url: None,
        display_index: 0,
    };
    let e = SidecarEntry::from_metadata(&meta, 42);
    assert_eq!(e.frame_index, 42);
    assert_eq!(e.timestamp_ms, 1234567890);
    assert_eq!(e.window_title, "VS Code");
    assert_eq!(e.app_id, "com.microsoft.vscode");
    assert_eq!(e.browser_url, None);
}

#[test]
fn segment_rotation() {
    // 2-second segments, frames one second apart starting at 1000 ms
    let mut t = SegmentTimeline::new(2);
    let mut rotations = 0;
    for i in 0..4u64 {
        let ts = 1000 + i * 1000;
        let plan = t.plan_frame(ts);
        if plan.rotate {
            rotations += 1;
            t.segment_finalized();
        }
        if plan.start_new {
            t.segment_started(ts);
        }
        assert_eq!(t.current_segment_frame_index(), if i % 2 == 0 { 0 } else { 1 });
        t.frame_written();
    }
    assert_eq!(rotations, 1);
}

#[test]
fn no_segment_open_means_index_zero() {
    let t = SegmentTimeline::new(300);
    assert_eq!(t.current_segment_frame_index(), 0);
    let p = t.plan_frame(5);
    assert!(!p.rotate);
    assert!(p.start_new);
}

#[test]
fn segment_file_names() {
    assert_eq!(segment_file(1000), "segment_1000.mkv");
    assert_eq!(sidecar_file(1000), "segment_1000.jsonl");
    assert_eq!(segment_file(0), "segment_0.mkv");
    assert_eq!(segment_file(u64::MAX), format!("segment_{}.mkv", u64::MAX));
    assert_ne!(segment_file(10), segment_file(100));
}

#[test]
fn rgba_rows_are_copied_where_they_fit() {
    // 2x3 frame, 8 bytes a row, destination rows 16 bytes apart
    assert_eq!(row_copies(24, 48, 2, 3, 16), vec![(0, 0, 8), (8, 16, 8), (16, 32, 8)]);
    // short source data: only the first two rows fit
    assert_eq!(row_copies(20, 48, 2, 3, 16), vec![(0, 0, 8), (8, 16, 8)]);
    // short plane: the last row does not fit
    assert_eq!(row_copies(24, 39, 2, 3, 16), vec![(0, 0, 8), (8, 16, 8)]);
    assert!(row_copies(0, 0, 0, 0, 0).is_empty());
}
