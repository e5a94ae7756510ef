use std::path::PathBuf;
use workshadow::ocr::{
    recognized_text, should_reanalyze, FastOcrBackend, FastOcrRoute, ModelRun, OcrBackendType,
    QualityOcrBackend,
};

#[test]
fn fast_backend_detection() {
    assert_eq!(FastOcrBackend::detect_backend(true, true, true), OcrBackendType::AppleVision);
    assert_eq!(FastOcrBackend::detect_backend(false, true, true), OcrBackendType::Tesseract);
    assert_eq!(FastOcrBackend::detect_backend(false, false, false), OcrBackendType::Disabled);
}

#[test]
fn fast_backend_routes() {
    let b = FastOcrBackend::new(OcrBackendType::Tesseract, "en".to_string());
    assert_eq!(*b.backend_type(), OcrBackendType::Tesseract);
    assert_eq!(b.language(), "en");
    assert_eq!(b.route(true), FastOcrRoute::Tesseract);
    let v = FastOcrBackend::new(OcrBackendType::AppleVision, "en".to_string());
    assert_eq!(v.route(false), FastOcrRoute::Empty);
    assert_eq!(v.route(true), FastOcrRoute::AppleVision);
    let d = FastOcrBackend::new(OcrBackendType::Disabled, "en".to_string());
    assert_eq!(d.route(true), FastOcrRoute::Empty);
}

#[test]
fn quality_backend_availability() {
    let missing = QualityOcrBackend::new(Some(PathBuf::from("/nonexistent/model.gguf")), false, true);
    assert!(!missing.is_available());
    assert!(!missing.runs_model());
    let mut ok = QualityOcrBackend::new(Some(PathBuf::from("m.gguf")), true, true);
    assert!(ok.is_available());
    assert!(ok.runs_model());
    ok.mark_unavailable();
    assert!(!ok.is_available());
    assert!(QualityOcrBackend::new(None, true, true).model_path().is_none());
}

#[test]
fn reanalysis_rule() {
    assert!(should_reanalyze(true, true, false, true));
    assert!(!should_reanalyze(false, true, false, true));
    assert!(!should_reanalyze(true, false, false, true));
    assert!(!should_reanalyze(true, true, true, true));
    assert!(!should_reanalyze(true, true, false, false));
}

#[test]
fn plain_text_output_is_trimmed() {
    assert_eq!(recognized_text("  Hello\nWorld \n"), Some("Hello\nWorld".to_string()));
    assert_eq!(recognized_text(" \n\t "), None);
    assert_eq!(recognized_text(""), None);
}

#[test]
fn model_runs_and_availability() {
    let mut b = QualityOcrBackend::new(Some(PathBuf::from("m.gguf")), true, true);
    assert_eq!(b.run_outcome(ModelRun::Finished(" text \n".to_string())), Some("text".to_string()));
    assert_eq!(b.run_outcome(ModelRun::Finished("   ".to_string())), None);
    assert_eq!(b.run_outcome(ModelRun::Failed), None);
    assert!(b.is_available());
    assert_eq!(b.run_outcome(ModelRun::NotStarted), None);
    assert!(!b.is_available());
    assert_eq!(b.model_path(), Some(&PathBuf::from("m.gguf")));
}
