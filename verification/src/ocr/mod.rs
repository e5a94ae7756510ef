//! OCR: which backend reads a frame, deduplication of consecutive frames,
//! detection of personal data, and the text parts of the backends' output.
pub mod dedup;
pub mod pii;
pub mod tsv;
pub mod vision;

use vstd::prelude::*;

use std::path::PathBuf;

use crate::text::{chars_of, string_from_chars, strip, strip_chars, CharClass};

verus! {

/// The text a plain-text OCR run printed: its output trimmed, when not blank.
pub open spec fn recognized(output: Seq<char>) -> Option<Seq<char>> {
    let t = strip(output, CharClass::WhiteSpace);
    if t.len() == 0 {
        None
    } else {
        Some(t)
    }
}

/// The text of a plain-text OCR run's output (trimmed), or `None` when it
/// printed nothing but white space.
pub fn recognized_text(output: &str) -> (r: Option<String>)
    ensures
        match r {
            Some(t) => recognized(output@) == Some(t@),
            None => recognized(output@) is None,
        },
{
    let chars = chars_of(output);
    let t = strip_chars(chars.as_slice(), CharClass::WhiteSpace);
    if t.len() == 0 {
        None
    } else {
        Some(string_from_chars(t.as_slice()))
    }
}

/// How a run of the quality model went.
#[derive(Debug, Clone)]
pub enum ModelRun {
    /// The run succeeded and printed this.
    Finished(String),
    /// The run exited with an error.
    Failed,
    /// The model runner could not be started.
    NotStarted,
}

/// The engine that produced an OCR result.
#[derive(Debug, Clone, Copy, PartialEq, Eq, Structural)]
pub enum OcrBackendType {
    AppleVision,
    Tesseract,
    DeepSeekOcr,
    Disabled,
}

/// The fast backend found on this machine: Apple Vision on macOS when
/// present, else the Tesseract CLI when installed, else none.
pub open spec fn fast_backend_for(
    on_macos: bool,
    apple_vision_available: bool,
    tesseract_available: bool,
) -> OcrBackendType {
    if on_macos && apple_vision_available {
        OcrBackendType::AppleVision
    } else if tesseract_available {
        OcrBackendType::Tesseract
    } else {
        OcrBackendType::Disabled
    }
}

/// How the fast backend reads a frame.
#[derive(Debug, Clone, Copy, PartialEq, Eq, Structural)]
pub enum FastOcrRoute {
    AppleVision,
    Tesseract,
    /// Nothing to run: the result is empty.
    Empty,
}

/// Fast OCR backend for real-time capture (~1 fps).
/// Priority: Apple Vision (macOS), then Tesseract CLI, then disabled.
pub struct FastOcrBackend {
    backend_type: OcrBackendType,
    language: String,
}

impl FastOcrBackend {
    /// Picks the fast backend from what the machine offers.
    pub fn detect_backend(
        on_macos: bool,
        apple_vision_available: bool,
        tesseract_available: bool,
    ) -> (b: OcrBackendType)
        ensures
            b == fast_backend_for(on_macos, apple_vision_available, tesseract_available),
    {
        if on_macos && apple_vision_available {
            OcrBackendType::AppleVision
        } else if tesseract_available {
            OcrBackendType::Tesseract
        } else {
            OcrBackendType::Disabled
        }
    }

    pub closed spec fn kind(&self) -> OcrBackendType {
        self.backend_type
    }

    pub closed spec fn lang(&self) -> Seq<char> {
        self.language@
    }

    /// A fast backend of the detected type, reading text in `language`.
    pub fn new(backend_type: OcrBackendType, language: String) -> (b: Self)
        ensures
            b.kind() == backend_type,
            b.lang() == language@,
    {
        FastOcrBackend { backend_type, language }
    }

    pub fn backend_type(&self) -> (t: &OcrBackendType)
        ensures
            *t == self.kind(),
    {
        &self.backend_type
    }

    pub fn language(&self) -> (l: &String)
        ensures
            l@ == self.lang(),
    {
        &self.language
    }

    /// How a frame is read: Apple Vision only runs on macOS; Tesseract runs
    /// anywhere; other backends give an empty result.
    pub fn route(&self, on_macos: bool) -> (r: FastOcrRoute)
        ensures
            r == match self.kind() {
                OcrBackendType::AppleVision => if on_macos {
                    FastOcrRoute::AppleVision
                } else {
                    FastOcrRoute::Empty
                },
                OcrBackendType::Tesseract => FastOcrRoute::Tesseract,
                _ => FastOcrRoute::Empty,
            },
    {
        match self.backend_type {
            OcrBackendType::AppleVision => if on_macos {
                FastOcrRoute::AppleVision
            } else {
                FastOcrRoute::Empty
            },
            OcrBackendType::Tesseract => FastOcrRoute::Tesseract,
            _ => FastOcrRoute::Empty,
        }
    }
}

/// Quality OCR backend (DeepSeek-OCR-2 through llama.cpp), used on demand.
pub struct QualityOcrBackend {
    model_path: Option<PathBuf>,
    available: bool,
}

impl QualityOcrBackend {
    pub closed spec fn has_model_path(&self) -> bool {
        self.model_path is Some
    }

    /// The model file, if one was found.
    pub closed spec fn path(&self) -> Option<PathBuf> {
        self.model_path
    }

    pub closed spec fn usable(&self) -> bool {
        self.available
    }

    /// The backend for the model found at `model_path` (if any): it is
    /// available when a model path is known, the model file exists and the
    /// llama.cpp CLI runs.
    pub fn new(model_path: Option<PathBuf>, model_exists: bool, llama_cli_available: bool) -> (b:
        Self)
        ensures
            b.has_model_path() == model_path is Some,
            b.path() == model_path,
            b.usable() == (model_path is Some && model_exists && llama_cli_available),
    {
        let available = model_path.is_some() && model_exists && llama_cli_available;
        QualityOcrBackend { model_path, available }
    }

    pub fn is_available(&self) -> (r: bool)
        ensures
            r == self.usable(),
    {
        self.available
    }

    /// The model file, if one was found.
    pub fn model_path(&self) -> (p: Option<&PathBuf>)
        ensures
            p is Some == self.has_model_path(),
            p matches Some(q) ==> self.path() == Some(*q),
            p is None ==> self.path() is None,
    {
        match &self.model_path {
            Some(p) => Some(p),
            None => None,
        }
    }

    /// The llama.cpp CLI could not be started: the backend stops being used.
    pub fn mark_unavailable(&mut self)
        ensures
            !final(self).usable(),
            final(self).has_model_path() == old(self).has_model_path(),
            final(self).path() == old(self).path(),
    {
        self.available = false;
    }

    /// The text a run of the model produced, if any. A runner that could not
    /// be started makes the backend unavailable; a failed run does not.
    pub fn run_outcome(&mut self, run: ModelRun) -> (r: Option<String>)
        ensures
            match run {
                ModelRun::Finished(out) => match r {
                    Some(t) => recognized(out@) == Some(t@),
                    None => recognized(out@) is None,
                },
                _ => r is None,
            },
            final(self).usable() == (old(self).usable() && !(run is NotStarted)),
            final(self).has_model_path() == old(self).has_model_path(),
            final(self).path() == old(self).path(),
    {
        match run {
            ModelRun::Finished(out) => recognized_text(out.as_str()),
            ModelRun::Failed => None,
            ModelRun::NotStarted => {
                self.mark_unavailable();
                None
            },
        }
    }

    /// Whether a frame is run through the model (otherwise the result is empty).
    pub fn runs_model(&self) -> (r: bool)
        ensures
            r == (self.usable() && self.has_model_path()),
    {
        self.available && self.model_path.is_some()
    }
}

/// Whether a fast result is re-read with the quality backend: re-analysis is
/// on, the quality backend is available, the fast pass found text, and its
/// confidence is below the threshold.
pub fn should_reanalyze(
    quality_reanalysis: bool,
    quality_available: bool,
    fast_text_is_empty: bool,
    fast_confidence_below_threshold: bool,
) -> (r: bool)
    ensures
        r == (quality_reanalysis && quality_available && !fast_text_is_empty
            && fast_confidence_below_threshold),
{
    if !quality_reanalysis {
        return false;
    }
    if !quality_available {
        return false;
    }
    if fast_text_is_empty {
        return false;
    }
    fast_confidence_below_threshold
}


/// Choice of the fast backend: Apple Vision exactly on a Mac that has it;
/// otherwise Tesseract whenever it is installed, on any platform; no OCR only
/// when neither is there.
pub proof fn lemma_fast_backend_choice(on_macos: bool, vision: bool, tesseract: bool)
    ensures
        (fast_backend_for(on_macos, vision, tesseract) == OcrBackendType::AppleVision) <==> (on_macos
            && vision),
        (fast_backend_for(on_macos, vision, tesseract) == OcrBackendType::Tesseract) <==> (!(on_macos
            && vision) && tesseract),
        (fast_backend_for(on_macos, vision, tesseract) == OcrBackendType::Disabled) <==> (!(on_macos
            && vision) && !tesseract),
{
}

} // verus!
