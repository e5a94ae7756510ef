use vstd::prelude::*;

use std::path::PathBuf;

use super::FrameMetadata;
use crate::text::{chars_of, string_from_chars};

verus! {

/// Video encoders the recorder knows how to drive, in preference order.
#[derive(Debug, Clone, Copy, PartialEq, Eq, Structural)]
pub enum HardwareEncoder {
    VideoToolbox,
    Nvenc,
    Qsv,
    Amf,
    Software,
}

/// The FFmpeg encoder name of each variant.
pub open spec fn encoder_name_spec(e: HardwareEncoder) -> Seq<char> {
    match e {
        HardwareEncoder::VideoToolbox => "hevc_videotoolbox"@,
        HardwareEncoder::Nvenc => "hevc_nvenc"@,
        HardwareEncoder::Qsv => "hevc_qsv"@,
        HardwareEncoder::Amf => "hevc_amf"@,
        HardwareEncoder::Software => "libx265"@,
    }
}

impl HardwareEncoder {
    /// Return the FFmpeg encoder name for this variant.
    pub fn ffmpeg_encoder_name(&self) -> (name: &'static str)
        ensures
            name@ == encoder_name_spec(*self),
    {
        match self {
            HardwareEncoder::VideoToolbox => "hevc_videotoolbox",
            HardwareEncoder::Nvenc => "hevc_nvenc",
            HardwareEncoder::Qsv => "hevc_qsv",
            HardwareEncoder::Amf => "hevc_amf",
            HardwareEncoder::Software => "libx265",
        }
    }
}

/// The hardware encoders tried at startup, in priority order.
pub open spec fn encoder_candidates() -> Seq<HardwareEncoder> {
    seq![
        HardwareEncoder::VideoToolbox,
        HardwareEncoder::Nvenc,
        HardwareEncoder::Qsv,
        HardwareEncoder::Amf,
    ]
}

/// The hardware encoders to probe, in priority order.
pub fn hardware_encoder_candidates() -> (v: Vec<HardwareEncoder>)
    ensures
        v@ == encoder_candidates(),
{
    let v = vec![
        HardwareEncoder::VideoToolbox,
        HardwareEncoder::Nvenc,
        HardwareEncoder::Qsv,
        HardwareEncoder::Amf,
    ];
    assert(v@ =~= encoder_candidates());
    v
}

/// The first candidate found available, or the software encoder when none is.
pub open spec fn chosen_encoder(available: Seq<bool>) -> HardwareEncoder {
    chosen_from(available, 0)
}

pub open spec fn chosen_from(available: Seq<bool>, i: int) -> HardwareEncoder
    decreases encoder_candidates().len() - i,
{
    if i >= encoder_candidates().len() || i < 0 {
        HardwareEncoder::Software
    } else if i < available.len() && available[i] {
        encoder_candidates()[i]
    } else {
        chosen_from(available, i + 1)
    }
}

/// Picks the encoder to use from the availability of each candidate of
/// `hardware_encoder_candidates` (in the same order).
pub fn choose_encoder(available: &[bool]) -> (e: HardwareEncoder)
    requires
        available@.len() == encoder_candidates().len(),
    ensures
        e == chosen_encoder(available@),
{
    let candidates = hardware_encoder_candidates();
    let mut i: usize = 0;
    while i < candidates.len()
        invariant
            candidates@ == encoder_candidates(),
            available@.len() == candidates@.len(),
            i <= candidates@.len(),
            chosen_from(available@, 0) == chosen_from(available@, i as int),
        decreases candidates@.len() - i,
    {
        if available[i] {
            return candidates[i];
        }
        i = i + 1;
    }
    HardwareEncoder::Software
}

/// Metadata sidecar entry written as one JSON line per frame.
#[derive(Debug, Clone)]
pub struct SidecarEntry {
    pub frame_index: u32,
    pub timestamp_ms: u64,
    pub window_title: String,
    pub app_id: String,
    pub browser_url: Option<String>,
    pub display_index: u8,
}

impl SidecarEntry {
    /// The sidecar entry of the frame with index `idx` in its segment.
    pub fn from_metadata(meta: &FrameMetadata, idx: u32) -> (e: Self)
        ensures
            e.frame_index == idx,
            e.timestamp_ms == meta.timestamp_ms,
            e.window_title@ == meta.active_window_title@,
            e.app_id@ == meta.app_bundle_id@,
            e.browser_url matches Some(u) ==> meta.browser_url matches Some(m) && u@ == m@,
            e.browser_url is None ==> meta.browser_url is None,
            e.display_index == meta.display_index,
    {
        let browser_url = match &meta.browser_url {
            Some(u) => Some(u.clone()),
            None => None,
        };
        SidecarEntry {
            frame_index: idx,
            timestamp_ms: meta.timestamp_ms,
            window_title: meta.active_window_title.clone(),
            app_id: meta.app_bundle_id.clone(),
            browser_url,
            display_index: meta.display_index,
        }
    }
}

#[verifier::external_type_specification]
#[verifier::external_body]
pub struct ExPathBuf(PathBuf);

/// Info about a completed segment.
#[derive(Debug)]
pub struct SegmentInfo {
    pub segment_path: PathBuf,
    pub sidecar_path: PathBuf,
    pub frame_count: u32,
    pub started_at_ms: u64,
    pub disk_size_bytes: u64,
}

/// Whether a segment started at `started_at_ms` is due for rotation when a
/// frame taken at `timestamp_ms` arrives: its age in whole seconds has
/// reached the segment duration.
pub open spec fn segment_expired(started_at_ms: u64, timestamp_ms: u64, duration_secs: u32) -> bool {
    (timestamp_ms - started_at_ms) / 1000 >= duration_secs
}

/// What the encoder does with an incoming frame.
#[derive(Debug, Clone, Copy, PartialEq, Eq, Structural)]
pub struct FramePlan {
    /// Finalize the open segment first.
    pub rotate: bool,
    /// Open a new segment starting at the frame.
    pub start_new: bool,
}

/// The segment bookkeeping of the video encoder: which segment is open, when
/// it started and how many frames it holds.
pub struct SegmentTimeline {
    segment_duration_secs: u32,
    current: Option<(u64, u32)>,
}

impl SegmentTimeline {
    pub closed spec fn duration_secs(&self) -> u32 {
        self.segment_duration_secs
    }

    /// The open segment: its start time and its number of frames.
    pub closed spec fn open_segment(&self) -> Option<(u64, u32)> {
        self.current
    }

    pub fn new(segment_duration_secs: u32) -> (t: Self)
        ensures
            t.duration_secs() == segment_duration_secs,
            t.open_segment() is None,
    {
        SegmentTimeline { segment_duration_secs, current: None }
    }

    /// Plans a frame taken at `timestamp_ms`: rotate when the open segment
    /// has reached the segment duration, and open a new segment when none is
    /// open afterwards.
    pub fn plan_frame(&self, timestamp_ms: u64) -> (p: FramePlan)
        requires
            self.open_segment() matches Some((start, _)) ==> start <= timestamp_ms,
        ensures
            p.rotate == (self.open_segment() matches Some((start, _)) && segment_expired(
                start,
                timestamp_ms,
                self.duration_secs(),
            )),
            p.start_new == (p.rotate || self.open_segment() is None),
            // a frame never lands in a segment that has reached the duration
            !p.start_new ==> (self.open_segment() matches Some((start, _)) && !segment_expired(
                start,
                timestamp_ms,
                self.duration_secs(),
            )),
    {
        let rotate = match self.current {
            Some((start, _)) => (timestamp_ms - start) / 1000 >= self.segment_duration_secs as u64,
            None => false,
        };
        FramePlan { rotate, start_new: rotate || self.current.is_none() }
    }

    /// The open segment was finalized.
    pub fn segment_finalized(&mut self)
        ensures
            final(self).open_segment() is None,
            final(self).duration_secs() == old(self).duration_secs(),
    {
        self.current = None;
    }

    /// A new segment was opened at `timestamp_ms`.
    pub fn segment_started(&mut self, timestamp_ms: u64)
        ensures
            final(self).open_segment() == Some((timestamp_ms, 0u32)),
            final(self).duration_secs() == old(self).duration_secs(),
    {
        self.current = Some((timestamp_ms, 0));
    }

    /// A frame was written to the open segment.
    pub fn frame_written(&mut self)
        requires
            old(self).open_segment() matches Some((_, n)) ==> n < u32::MAX,
        ensures
            final(self).duration_secs() == old(self).duration_secs(),
            final(self).open_segment() == match old(self).open_segment() {
                Some((start, n)) => Some((start, (n + 1) as u32)),
                None => None,
            },
    {
        if let Some((start, n)) = self.current {
            self.current = Some((start, n + 1));
        }
    }

    /// The frame index within the current segment (0 when none is open).
    pub fn current_segment_frame_index(&self) -> (n: u32)
        ensures
            n == match self.open_segment() {
                Some((_, k)) => k,
                None => 0,
            },
    {
        match self.current {
            Some((_, n)) => n,
            None => 0,
        }
    }
}

/// A row of an RGBA frame fits: its `row_bytes` bytes lie inside the frame
/// data (rows packed one after another) and inside the destination plane
/// (rows `stride` bytes apart).
pub open spec fn row_fits(y: nat, row_bytes: nat, stride: nat, data_len: nat, plane_len: nat) -> bool {
    y * row_bytes + row_bytes <= data_len && y * stride + row_bytes <= plane_len
}

/// The copies that move the rows `0..height` of an RGBA frame into a plane,
/// as (source start, destination start, length), for each row that fits.
pub open spec fn row_copy_plan(
    height: nat,
    row_bytes: nat,
    stride: nat,
    data_len: nat,
    plane_len: nat,
) -> Seq<(nat, nat, nat)>
    decreases height,
{
    if height == 0 {
        Seq::empty()
    } else {
        let y = (height - 1) as nat;
        let before = row_copy_plan(y, row_bytes, stride, data_len, plane_len);
        if row_fits(y, row_bytes, stride, data_len, plane_len) {
            before.push((y * row_bytes, y * stride, row_bytes))
        } else {
            before
        }
    }
}

pub open spec fn copy_views(v: Seq<(usize, usize, usize)>) -> Seq<(nat, nat, nat)> {
    v.map_values(|c: (usize, usize, usize)| (c.0 as nat, c.1 as nat, c.2 as nat))
}

/// The row copies that put a `width` x `height` RGBA frame of `data_len`
/// bytes into a plane of `plane_len` bytes with rows `stride` bytes apart;
/// rows that do not fit are skipped.
pub fn row_copies(data_len: usize, plane_len: usize, width: u32, height: u32, stride: usize) -> (r: Vec<
    (usize, usize, usize),
>)
    requires
        width as nat * 4 <= usize::MAX,
        height as nat * (width as nat * 4) + width as nat * 4 <= usize::MAX,
        height as nat * (stride as nat) + width as nat * 4 <= usize::MAX,
    ensures
        copy_views(r@) == row_copy_plan(
            height as nat,
            width as nat * 4,
            stride as nat,
            data_len as nat,
            plane_len as nat,
        ),
{
    let row_bytes = (width as usize) * 4;
    let ghost rb = width as nat * 4;
    let mut out: Vec<(usize, usize, usize)> = Vec::new();
    let mut y: u32 = 0;
    let mut src: usize = 0;
    let mut dst: usize = 0;
    assert(copy_views(out@) =~= Seq::<(nat, nat, nat)>::empty());
    while y < height
        invariant
            y <= height,
            row_bytes == rb,
            rb == width as nat * 4,
            height as nat * rb + rb <= usize::MAX,
            height as nat * (stride as nat) + rb <= usize::MAX,
            src as nat == y as nat * rb,
            dst as nat == y as nat * (stride as nat),
            copy_views(out@) == row_copy_plan(y as nat, rb, stride as nat, data_len as nat, plane_len as nat),
        decreases height - y,
    {
        assert(y as nat * rb <= height as nat * rb) by (nonlinear_arith)
            requires y <= height;
        assert(y as nat * (stride as nat) <= height as nat * (stride as nat)) by (nonlinear_arith)
            requires y <= height;
        let ghost before = copy_views(out@);
        if src + row_bytes <= data_len && dst + row_bytes <= plane_len {
            out.push((src, dst, row_bytes));
            assert(copy_views(out@) =~= before.push((y as nat * rb, y as nat * (stride as nat), rb)));
        }
        assert((y as nat + 1) * rb == y as nat * rb + rb) by (nonlinear_arith);
        assert((y as nat + 1) * (stride as nat) == y as nat * (stride as nat) + stride) by (nonlinear_arith);
        assert((y as nat + 1) * rb <= height as nat * rb) by (nonlinear_arith)
            requires y < height;
        assert((y as nat + 1) * (stride as nat) <= height as nat * (stride as nat)) by (nonlinear_arith)
            requires y < height;
        src = src + row_bytes;
        dst = dst + stride;
        y = y + 1;
    }
    out
}

/// The character of a decimal digit.
pub open spec fn digit_char(d: nat) -> char {
    ((48 + d) as u8) as char
}

/// The decimal representation of `n` (as `u64`'s `Display` writes it).
pub open spec fn decimal(n: nat) -> Seq<char>
    decreases n,
{
    if n < 10 {
        seq![digit_char(n)]
    } else {
        decimal(n / 10).push(digit_char(n % 10))
    }
}

/// Appends the decimal digits of `n` to `out`.
fn push_decimal(out: &mut Vec<char>, n: u64)
    ensures
        final(out)@ == old(out)@ + decimal(n as nat),
    decreases n,
{
    if n >= 10 {
        push_decimal(out, n / 10);
    }
    let d = (n % 10) as u8;
    out.push((48u8 + d) as char);
    assert(final(out)@ =~= old(out)@ + decimal(n as nat)) by {
        if n >= 10 {
            assert(decimal(n as nat) == decimal((n / 10) as nat).push(digit_char((n % 10) as nat)));
        }
    }
}

pub proof fn lemma_decimal_len(n: nat)
    ensures
        decimal(n).len() >= 1,
        n >= 10 ==> decimal(n).len() >= 2,
    decreases n,
{
    if n >= 10 {
        lemma_decimal_len(n / 10);
    }
}

/// Different numbers are written differently.
pub proof fn lemma_decimal_injective(a: nat, b: nat)
    requires
        decimal(a) == decimal(b),
    ensures
        a == b,
    decreases a,
{
    lemma_decimal_len(a);
    lemma_decimal_len(b);
    if a >= 10 && b >= 10 {
        let da = decimal(a);
        assert(da.last() == digit_char(a % 10));
        assert(decimal(b).last() == digit_char(b % 10));
        assert(decimal(a / 10) =~= da.drop_last());
        assert(decimal(b / 10) =~= decimal(b).drop_last());
        lemma_decimal_injective(a / 10, b / 10);
    } else if a < 10 && b < 10 {
        assert(decimal(a)[0] == digit_char(a));
        assert(decimal(b)[0] == digit_char(b));
    }
}

/// The file name of the segment that starts at `timestamp_ms`.
pub open spec fn segment_file_name(timestamp_ms: u64) -> Seq<char> {
    "segment_"@ + decimal(timestamp_ms as nat) + ".mkv"@
}

/// The file name of that segment's metadata sidecar.
pub open spec fn sidecar_file_name(timestamp_ms: u64) -> Seq<char> {
    "segment_"@ + decimal(timestamp_ms as nat) + ".jsonl"@
}

fn name_with(timestamp_ms: u64, ext: &str) -> (r: String)
    ensures
        r@ == "segment_"@ + decimal(timestamp_ms as nat) + ext@,
{
    let mut out = chars_of("segment_");
    push_decimal(&mut out, timestamp_ms);
    let tail = chars_of(ext);
    let mut k: usize = 0;
    let ghost base = out@;
    while k < tail.len()
        invariant
            k <= tail@.len(),
            out@ == base + tail@.take(k as int),
        decreases tail@.len() - k,
    {
        out.push(tail[k]);
        assert(out@ =~= base + tail@.take(k + 1));
        k = k + 1;
    }
    assert(tail@.take(tail@.len() as int) =~= tail@);
    string_from_chars(out.as_slice())
}

/// `segment_<timestamp>.mkv`: the video file of the segment started at `timestamp_ms`.
pub fn segment_file(timestamp_ms: u64) -> (r: String)
    ensures
        r@ == segment_file_name(timestamp_ms),
{
    name_with(timestamp_ms, ".mkv")
}

/// `segment_<timestamp>.jsonl`: the sidecar of the segment started at `timestamp_ms`.
pub fn sidecar_file(timestamp_ms: u64) -> (r: String)
    ensures
        r@ == sidecar_file_name(timestamp_ms),
{
    name_with(timestamp_ms, ".jsonl")
}

/// Segments started at different times never share a file name, so a new
/// segment never overwrites an older one.
pub proof fn lemma_segment_names_distinct(a: u64, b: u64)
    requires
        a != b,
    ensures
        segment_file_name(a) != segment_file_name(b),
        sidecar_file_name(a) != sidecar_file_name(b),
{
    let p = "segment_"@;
    let da = decimal(a as nat);
    let db = decimal(b as nat);
    if segment_file_name(a) == segment_file_name(b) {
        let x = ".mkv"@;
        assert((p + da + x).subrange(p.len() as int, (p.len() + da.len()) as int) =~= da);
        assert((p + db + x).len() == p.len() + db.len() + x.len());
        assert(da.len() == db.len());
        assert((p + db + x).subrange(p.len() as int, (p.len() + db.len()) as int) =~= db);
        lemma_decimal_injective(a as nat, b as nat);
    }
    if sidecar_file_name(a) == sidecar_file_name(b) {
        let x = ".jsonl"@;
        assert((p + da + x).subrange(p.len() as int, (p.len() + da.len()) as int) =~= da);
        assert((p + db + x).len() == p.len() + db.len() + x.len());
        assert(da.len() == db.len());
        assert((p + db + x).subrange(p.len() as int, (p.len() + db.len()) as int) =~= db);
        lemma_decimal_injective(a as nat, b as nat);
    }
}


/// A segment expires exactly when it has run for the whole duration: its
/// frame came at least `1000 * duration_secs` milliseconds after its start,
/// for every duration.
pub proof fn lemma_segment_expiry(started_at_ms: u64, timestamp_ms: u64, duration_secs: u32)
    requires
        started_at_ms <= timestamp_ms,
    ensures
        segment_expired(started_at_ms, timestamp_ms, duration_secs) <==> timestamp_ms - started_at_ms
            >= 1000 * duration_secs,
{
    let e = (timestamp_ms - started_at_ms) as int;
    let d = duration_secs as int;
    assert((e / 1000 >= d) <==> (e >= 1000 * d)) by (nonlinear_arith)
        requires
            e >= 0,
            d >= 0,
    ;
}


/// The encoder chosen is the first available of VideoToolbox, NVENC, Quick
/// Sync and AMF, in that order; the software encoder only when none is.
pub proof fn lemma_encoder_priority(available: Seq<bool>)
    requires
        available.len() == 4,
    ensures
        available[0] ==> chosen_encoder(available) == HardwareEncoder::VideoToolbox,
        !available[0] && available[1] ==> chosen_encoder(available) == HardwareEncoder::Nvenc,
        !available[0] && !available[1] && available[2] ==> chosen_encoder(available)
            == HardwareEncoder::Qsv,
        !available[0] && !available[1] && !available[2] && available[3] ==> chosen_encoder(
            available,
        ) == HardwareEncoder::Amf,
        (chosen_encoder(available) == HardwareEncoder::Software) <==> (!available[0]
            && !available[1] && !available[2] && !available[3]),
{
    reveal_with_fuel(chosen_from, 5);
}

} // verus!
