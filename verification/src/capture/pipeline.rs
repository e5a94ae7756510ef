//! Per-frame decisions of the capture pipeline: which frames are skipped,
//! which are stored, and the personal-data flags stored with them.
use vstd::prelude::*;

use super::activity::CaptureCommand;
use super::{CaptureState, FrameMetadata};
use crate::ocr::pii::{detect_pii, detection_views, pii_in, PiiDetection, PiiType};
use crate::privacy::exclusions::{app_matches, url_matches, ExclusionFilter};
use crate::text::string_views;

verus! {

/// Why the pipeline refused a command.
#[derive(Debug, Clone, Copy, PartialEq, Eq, Structural)]
pub enum PipelineError {
    /// Start while the pipeline is already running.
    AlreadyRunning,
}

/// Whether the pipeline runs, and the state it reports.
#[derive(Debug, Clone, Copy, PartialEq, Eq, Structural)]
pub struct PipelineStatus {
    pub running: bool,
    pub state: CaptureState,
}

/// The pipeline after a control command: start is refused while running and
/// otherwise runs and records; pause and resume change only the reported
/// state; stop ends the run and reports idle.
pub open spec fn pipeline_after(running: bool, cmd: CaptureCommand) -> Result<PipelineStatus, PipelineError> {
    match cmd {
        CaptureCommand::Start => if running {
            Err(PipelineError::AlreadyRunning)
        } else {
            Ok(PipelineStatus { running: true, state: CaptureState::Recording })
        },
        CaptureCommand::Pause => Ok(PipelineStatus { running, state: CaptureState::Paused }),
        CaptureCommand::Resume => Ok(PipelineStatus { running, state: CaptureState::Recording }),
        CaptureCommand::Stop => Ok(PipelineStatus { running: false, state: CaptureState::Idle }),
    }
}

/// Applies a control command to a pipeline that is `running` or not.
pub fn pipeline_command(running: bool, cmd: CaptureCommand) -> (r: Result<PipelineStatus, PipelineError>)
    ensures
        r == pipeline_after(running, cmd),
{
    match cmd {
        CaptureCommand::Start => if running {
            Err(PipelineError::AlreadyRunning)
        } else {
            Ok(PipelineStatus { running: true, state: CaptureState::Recording })
        },
        CaptureCommand::Pause => Ok(PipelineStatus { running, state: CaptureState::Paused }),
        CaptureCommand::Resume => Ok(PipelineStatus { running, state: CaptureState::Recording }),
        CaptureCommand::Stop => Ok(PipelineStatus { running: false, state: CaptureState::Idle }),
    }
}

/// A frame is skipped when its application is excluded or its browser page
/// matches an excluded URL pattern.
pub fn is_frame_excluded(filter: &ExclusionFilter, metadata: &FrameMetadata) -> (r: bool)
    ensures
        r == (app_matches(filter.apps(), metadata.app_bundle_id@) || (metadata.browser_url matches Some(
            u,
        ) && url_matches(filter.url_patterns(), u@))),
{
    if filter.is_app_excluded(metadata.app_bundle_id.as_str()) {
        return true;
    }
    match &metadata.browser_url {
        Some(url) => filter.is_url_excluded(url.as_str()),
        None => false,
    }
}

/// A frame's record is stored unless its text repeats the previous frame's;
/// frames without text are always stored.
pub fn should_store_frame(is_duplicate: bool, full_text: &str) -> (r: bool)
    ensures
        r == (!is_duplicate || full_text@.len() == 0),
{
    !is_duplicate || full_text.is_empty()
}

/// The name under which a kind of personal data is flagged.
pub open spec fn pii_name(t: PiiType) -> Seq<char> {
    match t {
        PiiType::Email => "Email"@,
        PiiType::Phone => "Phone"@,
        PiiType::Ssn => "Ssn"@,
        PiiType::CreditCard => "CreditCard"@,
    }
}

pub fn pii_type_name(t: PiiType) -> (s: &'static str)
    ensures
        s@ == pii_name(t),
{
    match t {
        PiiType::Email => "Email",
        PiiType::Phone => "Phone",
        PiiType::Ssn => "Ssn",
        PiiType::CreditCard => "CreditCard",
    }
}

/// `serde_json::to_string` of a list of strings: a JSON array of JSON strings.
pub uninterp spec fn json_string_array(items: Seq<Seq<char>>) -> Seq<char>;

/// A string that JSON writes without escapes: no control character, quote
/// or backslash.
pub open spec fn json_plain(s: Seq<char>) -> bool {
    forall|i: int| 0 <= i < s.len() ==> (s[i] as u32) >= 0x20 && s[i] != '"' && s[i] != '\\'
}

/// The items of a compact JSON array of plain strings, each quoted, separated
/// by commas.
pub open spec fn json_items(items: Seq<Seq<char>>) -> Seq<char>
    decreases items.len(),
{
    if items.len() == 0 {
        Seq::empty()
    } else if items.len() == 1 {
        seq!['"'] + items[0] + seq!['"']
    } else {
        json_items(items.drop_last()) + seq![','] + (seq!['"'] + items.last() + seq!['"'])
    }
}

/// The compact JSON array of plain strings: `["a","b"]`.
pub open spec fn json_plain_array(items: Seq<Seq<char>>) -> Seq<char> {
    seq!['['] + json_items(items) + seq![']']
}

/// Serializes a list of strings with `serde_json::to_string`; the result is
/// named `json_string_array(items)`. As serde_json's compact writer shows,
/// strings without control characters, quotes or backslashes are written
/// quoted as they are, separated by commas, between brackets.
#[verifier::external_body]
fn to_json_string_array(items: &Vec<String>) -> (r: String)
    ensures
        r@ == json_string_array(string_views(items@)),
        (forall|i: int|
            0 <= i < items@.len() ==> json_plain(#[trigger] string_views(items@)[i])) ==> r@
            == json_plain_array(string_views(items@)),
{
    serde_json::to_string(items).unwrap_or_default()
}

/// The flag names of a list of detections, in order.
pub open spec fn flag_names(ds: Seq<(PiiType, Seq<char>, usize, usize)>) -> Seq<Seq<char>> {
    ds.map_values(|d: (PiiType, Seq<char>, usize, usize)| pii_name(d.0))
}

/// The personal-data flags stored with a frame: the JSON list of the kinds
/// detected in its text, one entry per detection (such as
/// `["Email","Ssn"]`); none when detection is off, the text is empty, or
/// nothing is found.
pub open spec fn frame_pii_flags(pii_detection: bool, full_text: Seq<char>) -> Option<Seq<char>> {
    if !pii_detection || full_text.len() == 0 || pii_in(full_text).len() == 0 {
        None
    } else {
        Some(json_plain_array(flag_names(pii_in(full_text))))
    }
}

pub fn pii_flags(pii_detection: bool, full_text: &str) -> (r: Option<String>)
    ensures
        match r {
            Some(s) => frame_pii_flags(pii_detection, full_text@) == Some(s@),
            None => frame_pii_flags(pii_detection, full_text@) is None,
        },
{
    if !pii_detection || full_text.is_empty() {
        return None;
    }
    let detections: Vec<PiiDetection> = detect_pii(full_text);
    if detections.len() == 0 {
        return None;
    }
    let ghost dv = detection_views(detections@);
    let mut names: Vec<String> = Vec::new();
    let mut i: usize = 0;
    while i < detections.len()
        invariant
            dv == detection_views(detections@),
            i <= detections@.len(),
            string_views(names@) == flag_names(dv.take(i as int)),
        decreases detections@.len() - i,
    {
        let ghost before = string_views(names@);
        let name = String::from_str(pii_type_name(detections[i].pii_type));
        names.push(name);
        assert(string_views(names@) =~= before.push(pii_name(detections@[i as int].pii_type)));
        assert(dv.take(i + 1) =~= dv.take(i as int).push(dv[i as int]));
        assert(flag_names(dv.take(i + 1)) =~= flag_names(dv.take(i as int)).push(
            pii_name(dv[i as int].0),
        ));
        i = i + 1;
    }
    assert(dv.take(detections@.len() as int) =~= dv);
    proof {
        reveal_strlit("Email");
        reveal_strlit("Phone");
        reveal_strlit("Ssn");
        reveal_strlit("CreditCard");
        assert forall|i: int| 0 <= i < names@.len() implies json_plain(
            #[trigger] string_views(names@)[i],
        ) by {
            assert(string_views(names@)[i] == pii_name(dv[i].0));
        }
    }
    Some(to_json_string_array(&names))
}

} // verus!
