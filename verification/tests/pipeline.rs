use workshadow::capture::activity::CaptureCommand;
use workshadow::capture::pipeline::{
    is_frame_excluded, pii_flags, pii_type_name, pipeline_command, should_store_frame, PipelineError,
    PipelineStatus,
};
use workshadow::capture::{CaptureState, FrameMetadata};
use workshadow::ocr::pii::PiiType;
use workshadow::privacy::exclusions::ExclusionFilter;

fn meta(app: &str, url: Option<&str>) -> FrameMetadata {
    FrameMetadata {
        timestamp_ms: 1,
        active_window_title: "w".to_string(),
        app_bundle_id: app.to_string(),
        browser_url: url.map(|u| u.to_string()),
        display_index: 0,
    }
}

#[test]
fn excluded_frames() {
    let f = ExclusionFilter::new(vec!["KeePass".to_string()], vec!["*bank*".to_string()]);
    assert!(is_frame_excluded(&f, &meta("KeePassXC", None)));
    assert!(is_frame_excluded(&f, &meta("firefox", Some("My Bank - Login"))));
    assert!(!is_frame_excluded(&f, &meta("firefox", Some("GitHub"))));
    assert!(!is_frame_excluded(&f, &meta("code", None)));
}

#[test]
fn storing_rule() {
    assert!(should_store_frame(false, "text"));
    assert!(!should_store_frame(true, "text"));
    assert!(should_store_frame(true, ""));
}

#[test]
fn pii_flags_as_json() {
    assert_eq!(pii_flags(true, "mail a@b.io or c@d.org"), Some("[\"Email\",\"Email\"]".to_string()));
    assert_eq!(pii_flags(true, "SSN 123-45-6789").as_deref().map(|s| s.contains("\"Ssn\"")), Some(true));
    assert_eq!(pii_flags(false, "mail a@b.io"), None);
    assert_eq!(pii_flags(true, ""), None);
    assert_eq!(pii_flags(true, "nothing here"), None);
}

#[test]
fn pii_type_names_match_debug() {
    for t in [PiiType::Email, PiiType::Phone, PiiType::Ssn, PiiType::CreditCard] {
        assert_eq!(pii_type_name(t), format!("{:?}", t));
    }
}

#[test]
fn pipeline_commands() {
    assert_eq!(
        pipeline_command(false, CaptureCommand::Start),
        Ok(PipelineStatus { running: true, state: CaptureState::Recording })
    );
    assert_eq!(pipeline_command(true, CaptureCommand::Start), Err(PipelineError::AlreadyRunning));
    assert_eq!(
        pipeline_command(true, CaptureCommand::Pause),
        Ok(PipelineStatus { running: true, state: CaptureState::Paused })
    );
    assert_eq!(
        pipeline_command(true, CaptureCommand::Resume),
        Ok(PipelineStatus { running: true, state: CaptureState::Recording })
    );
    assert_eq!(
        pipeline_command(true, CaptureCommand::Stop),
        Ok(PipelineStatus { running: false, state: CaptureState::Idle })
    );
}
