//! Reasoning over a source: what a request asks for, and what the log and the
//! reply tell of it.

use vstd::prelude::*;
use vstd::utf8::{decode_utf8, encode_utf8, is_char_boundary};

use crate::analyze::{
    api_markers, append_markers, marker_events, segment_of, stream_id_for, stream_of, trace_id_for,
    trace_of, window_of,
};
use crate::chunk_result::{chunk_payload, ChunkSemanticResult};
use crate::chunks::{
    prepare_realtime_chunks, preps_upto, ranges_from, ChunkPrep, MediaResolution,
    SemanticMediaConfig, SemanticMediaMode,
};
use crate::files::SourceLookup;
use crate::frame_rows::{compose_rows, inputs_of, rows_of, LabeledFrame, RowContext, RowView};
use crate::ieee::{single, Single};
use crate::ingest::{ingest_source_refusal, single_or_null};
use crate::json::{
    compact_of, compact_opt, field_is_found, fraction_view, jsons_of, list_of, number_view, opt_json, text_or_null,
    with_field, Fields, Json, JsonView,
};
use crate::models::{
    sampling_policy_of, AnalyzeFrameMetadata, AnalyzeMarker, RealtimeReasonRequest, SamplingPolicy,
    TokenMetrics,
};
use crate::overlay::opt_overlay;
use crate::percentile::{percentile_ms, percentile_of};
use crate::response::{
    internal_error, internal_view, invalid_field, invalid_field_view, ok, ok_view, Reply,
    ReplyView,
};
use crate::runs::{
    change_refusal, check_change, opt_snapshot, EventAppend, Plan, PlanView, RunSnapshot,
    SnapshotView,
};
use crate::semantic::{
    lifecycle, InputView, MarkerConfig, MarkerInput, MarkerView, RatedSegment,
};
use crate::signals::{
    adaptive_sample_fps, allowed_rate, is_rate, rate_within_bounds, FrameSignal,
};
use crate::sort::views;
use crate::text::{is_blank, opt_text, owned, trimmed};

verus! {

/// What is said of reason requests in replies.
pub const REASON_CONTEXT: &'static str = "invalid realtime reason request";

/// What a model is asked where a request does not say.
pub const USUAL_PROMPT: &'static str =
    "You are classifying a short video chunk. Return strict JSON with keys: event_type, object_label, summary, description, confidence (0..1). event_type must be one of: scene_cut, artifact_suspected, keyframe_keep, context_observation.";

/// A whole number that a request gives, or what it is where it gives none.
pub open spec fn size_or(n: Option<usize>, default: usize) -> usize {
    match n {
        Some(v) => v,
        None => default,
    }
}

/// A whole number that a request gives, or what it is where it gives none.
pub open spec fn number_or(n: Option<u64>, default: u64) -> u64 {
    match n {
        Some(v) => v,
        None => default,
    }
}

/// A fraction that a request gives, or what it is where it gives none.
pub open spec fn fraction_or(s: Option<Single>, default: u32) -> Single {
    match s {
        Some(v) => v,
        None => single(default),
    }
}

/// A text that a request gives, or what it is where it gives none.
pub open spec fn text_or(s: Option<Seq<char>>, default: Seq<char>) -> Seq<char> {
    match s {
        Some(v) => v,
        None => default,
    }
}

/// The length of a clip is one that can be cut: more than nothing, and no more
/// than a minute.
pub open spec fn clip_length(s: Single) -> bool {
    s.finite() && !s.le(single(0)) && !single(0x4270_0000).lt(s)
}

/// What is wrong with a reason request: the field and the problem. `mode`,
/// `model` and `source` are what those of the request were found to be.
pub open spec fn reason_problem(
    payload: RealtimeReasonRequest,
    mode: Result<String, String>,
    model: Result<String, String>,
    source: Result<SourceLookup, String>,
) -> Option<(Seq<char>, Seq<char>)> {
    let policy = sampling_policy_of(opt_text(payload.sampling_policy));
    let prompt = text_or(opt_text(payload.semantic_prompt), USUAL_PROMPT@);
    if mode is Err {
        Some(("mode"@, mode->Err_0@))
    } else if model is Err {
        Some(("model"@, model->Err_0@))
    } else if policy is None {
        Some(
            ("sampling_policy"@, "sampling_policy must be one of: source_fps_adaptive, fixed"@),
        )
    } else if !(1 <= number_or(payload.max_frames, 120_000) <= 500_000) {
        Some(("max_frames"@, "max_frames must be in [1, 500000]"@))
    } else if !(5 <= size_or(payload.chunk_size, 25) <= 500) {
        Some(("chunk_size"@, "chunk_size must be in [5, 500]"@))
    } else if !(2 <= window_of(payload.window_size) <= 256) {
        Some(("window_size"@, "window_size must be in [2, 256]"@))
    } else if segment_of(payload.segment_ms) == 0 {
        Some(("segment_ms"@, "segment_ms must be >= 1"@))
    } else if !(1 <= size_or(payload.semantic_frames_per_chunk, 2) <= 4) {
        Some(("semantic_frames_per_chunk"@, "semantic_frames_per_chunk must be in [1, 4]"@))
    } else if !(100 <= number_or(payload.semantic_timeout_ms, 1_500) <= 120_000) {
        Some(("semantic_timeout_ms"@, "semantic_timeout_ms must be in [100, 120000]"@))
    } else if trimmed(prompt).len() == 0 || encode_utf8(prompt).len() > 4_096 {
        Some(("semantic_prompt"@, "semantic_prompt must be non-empty and <= 4096 bytes"@))
    } else if source is Err {
        Some(("source_uri"@, source->Err_0@))
    } else if payload.video_clip_mode == Some(true) && !clip_length(
        fraction_or(payload.video_clip_duration_s, 0x3f00_0000),
    ) {
        Some(("video_clip_duration_s"@, "video_clip_duration_s must be in (0, 60]"@))
    } else if policy == Some(SamplingPolicy::Fixed) && !is_rate(
        fraction_or(payload.fixed_fps, 0x3f80_0000),
    ) {
        Some(("fixed_fps"@, "fixed_fps must be in [0.2, 120.0]"@))
    } else {
        None
    }
}

/// The models that are asked: the first always, the second where the first was
/// less certain than the threshold.
#[derive(Debug)]
pub struct ReasonModels {
    pub first_pass_model: String,
    pub second_pass_model: String,
    pub second_pass_threshold: Single,
    pub second_pass_max_tokens: u32,
}

/// What a reason request asks for.
#[derive(Debug)]
pub struct RealtimeReasonParams {
    pub mode: String,
    pub model: String,
    pub sampling_policy: SamplingPolicy,
    pub max_frames: u64,
    pub chunk_size: usize,
    pub window_size: usize,
    pub segment_ms: u64,
    pub semantic_inference: bool,
    pub semantic_frames_per_chunk: usize,
    pub semantic_timeout_ms: u64,
    pub semantic_prompt: String,
    pub models: ReasonModels,
    pub video_clip_mode: bool,
    pub video_clip_duration_s: Single,
    pub fixed_fps: Single,
}

/// What is asked for is what the request says.
pub open spec fn reasons_about(
    p: RealtimeReasonParams,
    payload: RealtimeReasonRequest,
    mode: Seq<char>,
    model: Seq<char>,
) -> bool {
    &&& p.mode@ == mode
    &&& p.model@ == model
    &&& Some(p.sampling_policy) == sampling_policy_of(opt_text(payload.sampling_policy))
    &&& p.max_frames == number_or(payload.max_frames, 120_000)
    &&& p.chunk_size == size_or(payload.chunk_size, 25)
    &&& p.window_size == window_of(payload.window_size)
    &&& p.segment_ms == segment_of(payload.segment_ms)
    &&& p.semantic_inference == (payload.semantic_inference != Some(false))
    &&& p.semantic_frames_per_chunk == size_or(payload.semantic_frames_per_chunk, 2)
    &&& p.semantic_timeout_ms == number_or(payload.semantic_timeout_ms, 1_500)
    &&& p.semantic_prompt@ == text_or(opt_text(payload.semantic_prompt), USUAL_PROMPT@)
    &&& p.models.first_pass_model@ == text_or(opt_text(payload.first_pass_model), model)
    &&& p.models.second_pass_model@ == text_or(opt_text(payload.second_pass_model), model)
    &&& p.models.second_pass_threshold == fraction_or(
        payload.second_pass_threshold,
        0x3f33_3333,
    ).clamped(single(0), single(0x3f80_0000))
    &&& p.models.second_pass_max_tokens == 256
    &&& p.video_clip_mode == (payload.video_clip_mode == Some(true))
    &&& p.video_clip_duration_s == fraction_or(payload.video_clip_duration_s, 0x3f00_0000)
    &&& p.fixed_fps == fraction_or(payload.fixed_fps, 0x3f80_0000)
}

fn refused(request_id: &str, field: &'static str, problem: &str) -> (r: Reply)
    ensures
        r@ == invalid_field_view(request_id@, REASON_CONTEXT@, field@, problem@),
{
    invalid_field(request_id, REASON_CONTEXT, field, owned(problem))
}

fn size_in(n: Option<usize>, default: usize) -> (r: usize)
    ensures
        r == size_or(n, default),
{
    match n {
        Some(v) => v,
        None => default,
    }
}

fn number_in(n: Option<u64>, default: u64) -> (r: u64)
    ensures
        r == number_or(n, default),
{
    match n {
        Some(v) => v,
        None => default,
    }
}

fn fraction_in(s: Option<Single>, default: u32) -> (r: Single)
    ensures
        r == fraction_or(s, default),
{
    match s {
        Some(v) => v,
        None => Single { bits: default },
    }
}

fn text_in(s: &Option<String>, default: &str) -> (r: String)
    ensures
        r@ == text_or(opt_text(*s), default@),
{
    match s {
        Some(v) => owned(v.as_str()),
        None => owned(default),
    }
}

fn can_be_cut(s: Single) -> (r: bool)
    ensures
        r == clip_length(s),
{
    s.is_finite() && !s.at_most(Single { bits: 0 }) && !(Single { bits: 0x4270_0000 }).below(s)
}

/// What a reason request asks for, where it is not refused.
pub fn validate_realtime_reason_params(
    request_id: &str,
    payload: &RealtimeReasonRequest,
    mode: &Result<String, String>,
    model: &Result<String, String>,
    source: &Result<SourceLookup, String>,
) -> (r: Result<RealtimeReasonParams, Reply>)
    ensures
        match r {
            Ok(p) => reason_problem(*payload, *mode, *model, *source) is None && reasons_about(
                p,
                *payload,
                mode->Ok_0@,
                model->Ok_0@,
            ),
            Err(reply) => match reason_problem(*payload, *mode, *model, *source) {
                Some((field, problem)) => reply@ == invalid_field_view(
                    request_id@,
                    REASON_CONTEXT@,
                    field,
                    problem,
                ),
                None => false,
            },
        },
{
    let mode = match mode {
        Ok(m) => owned(m.as_str()),
        Err(problem) => return Err(refused(request_id, "mode", problem.as_str())),
    };
    let model = match model {
        Ok(m) => owned(m.as_str()),
        Err(problem) => return Err(refused(request_id, "model", problem.as_str())),
    };
    let named = match &payload.sampling_policy {
        Some(s) => SamplingPolicy::parse(Some(s.as_str())),
        None => SamplingPolicy::parse(None),
    };
    let sampling_policy = match named {
        Ok(p) => p,
        Err(problem) => return Err(refused(request_id, "sampling_policy", problem)),
    };
    let max_frames: u64 = number_in(payload.max_frames, 120_000);
    if max_frames < 1 || max_frames > 500_000 {
        return Err(refused(request_id, "max_frames", "max_frames must be in [1, 500000]"));
    }
    let chunk_size: usize = size_in(payload.chunk_size, 25);
    if chunk_size < 5 || chunk_size > 500 {
        return Err(refused(request_id, "chunk_size", "chunk_size must be in [5, 500]"));
    }
    let window_size: usize = size_in(payload.window_size, 16);
    if window_size < 2 || window_size > 256 {
        return Err(refused(request_id, "window_size", "window_size must be in [2, 256]"));
    }
    let segment_ms: u64 = number_in(payload.segment_ms, 250);
    if segment_ms == 0 {
        return Err(refused(request_id, "segment_ms", "segment_ms must be >= 1"));
    }
    let per_chunk: usize = size_in(payload.semantic_frames_per_chunk, 2);
    if per_chunk < 1 || per_chunk > 4 {
        return Err(
            refused(
                request_id,
                "semantic_frames_per_chunk",
                "semantic_frames_per_chunk must be in [1, 4]",
            ),
        );
    }
    let timeout_ms: u64 = number_in(payload.semantic_timeout_ms, 1_500);
    if timeout_ms < 100 || timeout_ms > 120_000 {
        return Err(
            refused(
                request_id,
                "semantic_timeout_ms",
                "semantic_timeout_ms must be in [100, 120000]",
            ),
        );
    }
    let semantic_prompt = text_in(&payload.semantic_prompt, USUAL_PROMPT);
    if is_blank(semantic_prompt.as_str()) || semantic_prompt.as_str().as_bytes().len() > 4_096 {
        return Err(
            refused(
                request_id,
                "semantic_prompt",
                "semantic_prompt must be non-empty and <= 4096 bytes",
            ),
        );
    }
    match source {
        Err(problem) => return Err(refused(request_id, "source_uri", problem.as_str())),
        Ok(_) => {},
    }
    let video_clip_mode = match payload.video_clip_mode {
        Some(b) => b,
        None => false,
    };
    let video_clip_duration_s = fraction_in(payload.video_clip_duration_s, 0x3f00_0000);
    if video_clip_mode && !can_be_cut(video_clip_duration_s) {
        return Err(
            refused(
                request_id,
                "video_clip_duration_s",
                "video_clip_duration_s must be in (0, 60]",
            ),
        );
    }
    let fixed_fps = fraction_in(payload.fixed_fps, 0x3f80_0000);
    if sampling_policy == SamplingPolicy::Fixed && !allowed_rate(fixed_fps) {
        return Err(refused(request_id, "fixed_fps", "fixed_fps must be in [0.2, 120.0]"));
    }
    let semantic_inference = match payload.semantic_inference {
        Some(b) => b,
        None => true,
    };
    let threshold = fraction_in(payload.second_pass_threshold, 0x3f33_3333);
    let models = ReasonModels {
        first_pass_model: text_in(&payload.first_pass_model, model.as_str()),
        second_pass_model: text_in(&payload.second_pass_model, model.as_str()),
        second_pass_threshold: threshold.clamp(Single { bits: 0 }, Single { bits: 0x3f80_0000 }),
        second_pass_max_tokens: 256,
    };
    Ok(
        RealtimeReasonParams {
            mode,
            model,
            sampling_policy,
            max_frames,
            chunk_size,
            window_size,
            segment_ms,
            semantic_inference,
            semantic_frames_per_chunk: per_chunk,
            semantic_timeout_ms: timeout_ms,
            semantic_prompt,
            models,
            video_clip_mode,
            video_clip_duration_s,
            fixed_fps,
        },
    )
}

/// The refusal of a reason request, where it is refused.
pub open spec fn reason_refusal(
    request_id: Seq<char>,
    run_id: Seq<char>,
    snapshot: Option<SnapshotView>,
    principal: Seq<char>,
    prefix: Seq<char>,
    payload: RealtimeReasonRequest,
    mode: Result<String, String>,
    model: Result<String, String>,
    source: Result<SourceLookup, String>,
) -> Option<ReplyView> {
    match change_refusal(
        request_id,
        REASON_CONTEXT@,
        "cannot reason over terminal run"@,
        run_id,
        snapshot,
        principal,
    ) {
        Some(reply) => Some(reply),
        None => match reason_problem(payload, mode, model, source) {
            Some((field, problem)) => Some(
                invalid_field_view(request_id, REASON_CONTEXT@, field, problem),
            ),
            None => ingest_source_refusal(request_id, REASON_CONTEXT@, source, principal, prefix),
        },
    }
}

/// What a reason request asks for, where it is not refused: by the run, by what
/// it says, or by a source that the caller may not see.
pub fn check_reason(
    request_id: &str,
    run_id: &str,
    snapshot: &Option<RunSnapshot>,
    principal: &str,
    prefix: &str,
    payload: &RealtimeReasonRequest,
    mode: &Result<String, String>,
    model: &Result<String, String>,
    source: &Result<SourceLookup, String>,
) -> (r: Result<RealtimeReasonParams, Reply>)
    ensures
        ({
            let refusal = reason_refusal(
                request_id@,
                run_id@,
                opt_snapshot(*snapshot),
                principal@,
                prefix@,
                *payload,
                *mode,
                *model,
                *source,
            );
            match r {
                Ok(p) => refusal is None && reasons_about(
                    p,
                    *payload,
                    mode->Ok_0@,
                    model->Ok_0@,
                ),
                Err(reply) => refusal == Some(reply@),
            }
        }),
{
    match check_change(
        request_id,
        REASON_CONTEXT,
        "cannot reason over terminal run",
        run_id,
        snapshot,
        principal,
    ) {
        Ok(_) => {},
        Err(reply) => return Err(reply),
    }
    let params = match validate_realtime_reason_params(request_id, payload, mode, model, source) {
        Ok(p) => p,
        Err(reply) => return Err(reply),
    };
    match crate::ingest::check_source(request_id, REASON_CONTEXT, source, principal, prefix) {
        Some(reply) => Err(reply),
        None => Ok(params),
    }
}

// -------------------------------------------------------------- settings
/// The rate of sampling that is used: an adaptive one follows the source, and is
/// 24 frames per second where the rate of the source is not known; a fixed one
/// is the one that was asked for.
pub open spec fn reason_rate(
    policy: SamplingPolicy,
    source_fps: Option<Single>,
    fixed_fps: Single,
) -> Single {
    match policy {
        SamplingPolicy::SourceFpsAdaptive => match source_fps {
            Some(fps) => rate_within_bounds(fps),
            None => single(0x41c0_0000),
        },
        SamplingPolicy::Fixed => fixed_fps,
    }
}

/// The rate of sampling that is used.
pub fn reason_sample_fps(
    policy: SamplingPolicy,
    source_fps: Option<Single>,
    fixed_fps: Single,
) -> (r: Single)
    ensures
        r == reason_rate(policy, source_fps, fixed_fps),
{
    match policy {
        SamplingPolicy::SourceFpsAdaptive => match source_fps {
            Some(fps) => adaptive_sample_fps(fps),
            None => Single { bits: 0x41c0_0000 },
        },
        SamplingPolicy::Fixed => fixed_fps,
    }
}

/// How the chunks of a source are handed to a model.
#[derive(Clone, Copy, Debug, PartialEq, Eq, Structural)]
pub struct DispatchSettings {
    /// A model is asked at all.
    pub available: bool,
    /// Single frames are decoded for it.
    pub decode_frames: bool,
    /// Each chunk goes along with the last frame of the one before.
    pub visual_diff: bool,
    /// Each chunk is told what the one before showed.
    pub temporal_chain: bool,
    /// How many calls may be in flight at once.
    pub concurrency: usize,
}

/// A number between one and 64.
pub open spec fn in_flight(n: usize) -> usize {
    if n < 1 {
        1
    } else if n > 64 {
        64
    } else {
        n
    }
}

/// How the chunks of a source are handed to a model.
pub open spec fn settings_of(
    params: RealtimeReasonParams,
    payload: RealtimeReasonRequest,
    has_provider: bool,
) -> DispatchSettings {
    let available = params.semantic_inference && has_provider;
    let visual_diff = payload.visual_diff == Some(true);
    DispatchSettings {
        available,
        decode_frames: available && !params.video_clip_mode,
        visual_diff,
        temporal_chain: visual_diff || payload.temporal_chain == Some(true),
        concurrency: in_flight(size_or(payload.vlm_concurrency, 4)),
    }
}

/// How the chunks of a source are handed to a model.
pub fn dispatch_settings(
    params: &RealtimeReasonParams,
    payload: &RealtimeReasonRequest,
    has_provider: bool,
) -> (r: DispatchSettings)
    ensures
        r == settings_of(*params, *payload, has_provider),
{
    let available = params.semantic_inference && has_provider;
    let visual_diff = match payload.visual_diff {
        Some(b) => b,
        None => false,
    };
    let chained = match payload.temporal_chain {
        Some(b) => b,
        None => false,
    };
    let asked: usize = size_in(payload.vlm_concurrency, 4);
    let concurrency: usize = if asked < 1 {
        1
    } else if asked > 64 {
        64
    } else {
        asked
    };
    DispatchSettings {
        available,
        decode_frames: available && !params.video_clip_mode,
        visual_diff,
        temporal_chain: visual_diff || chained,
        concurrency,
    }
}

/// The settings of the markers of a request.
pub open spec fn reason_markers(window: Option<u64>) -> MarkerConfig {
    MarkerConfig {
        correction_window_frames: number_or(window, 3),
        provisional_confidence_threshold: Single { bits: 0x3f33_3333 },
    }
}

/// The settings of the markers of a request.
pub fn marker_settings(window: Option<u64>) -> (r: MarkerConfig)
    ensures
        r == reason_markers(window),
{
    let usual = MarkerConfig::default();
    MarkerConfig {
        correction_window_frames: number_in(window, 3),
        provisional_confidence_threshold: usual.provisional_confidence_threshold,
    }
}

/// The events that come before the chunks: that the source was taken in, and,
/// where a model is asked for and there is none, that the rules alone judge.
pub open spec fn opening_events(
    request_id: Seq<char>,
    stream_id: Seq<char>,
    source_uri: Seq<char>,
    index_name: Option<Seq<char>>,
    wanted: bool,
    available: bool,
) -> Seq<(Seq<char>, JsonView)> {
    let received = (
        "ingest_received"@,
        JsonView::Object(
            seq![
                ("request_id"@, JsonView::Text(request_id)),
                ("source_uri"@, JsonView::Text(source_uri)),
                ("index_name"@, text_or_null(index_name)),
            ],
        ),
    );
    let fallback = (
        "semantic_fallback_activated"@,
        JsonView::Object(
            seq![
                ("request_id"@, JsonView::Text(request_id)),
                ("stream_id"@, JsonView::Text(stream_id)),
                ("reason"@, JsonView::Text("provider_not_configured"@)),
            ],
        ),
    );
    if wanted && !available {
        seq![received, fallback]
    } else {
        seq![received]
    }
}

/// The events that come before the chunks.
pub fn open_reasoning(
    request_id: &str,
    stream_id: &str,
    source_uri: &str,
    index_name: &Option<String>,
    wanted: bool,
    available: bool,
) -> (r: Vec<EventAppend>)
    ensures
        views(r@) == opening_events(
            request_id@,
            stream_id@,
            source_uri@,
            opt_text(*index_name),
            wanted,
            available,
        ),
{
    let ghost want = opening_events(
        request_id@,
        stream_id@,
        source_uri@,
        opt_text(*index_name),
        wanted,
        available,
    );
    let mut out: Vec<EventAppend> = Vec::new();
    let mut o = Fields::new();
    o.put("request_id", Json::text(request_id));
    o.put("source_uri", Json::text(source_uri));
    o.put("index_name", Json::text_or_null(index_name));
    assert(o@ =~= want[0].1->Object_0);
    out.push(EventAppend { kind: "ingest_received", payload: o.object() });
    if wanted && !available {
        let mut f = Fields::new();
        f.put("request_id", Json::text(request_id));
        f.put("stream_id", Json::text(stream_id));
        f.put("reason", Json::text("provider_not_configured"));
        assert(f@ =~= want[1].1->Object_0);
        out.push(EventAppend { kind: "semantic_fallback_activated", payload: f.object() });
    }
    assert(views(out@) =~= want);
    out
}

// -------------------------------------------------------------- beginning
/// What became of the decoding of a source.
#[derive(Debug)]
pub enum DecodeOutcome {
    /// The frames that were read.
    Decoded(Vec<FrameSignal>),
    /// The source could not be read, and why.
    Refused(String),
    /// The worker broke down.
    Broke,
}

/// How the chunks of a source are shown: as clips of some length, where clips
/// are asked for.
pub open spec fn shown_media(
    params: RealtimeReasonParams,
    window_ms: u64,
    resolution: MediaResolution,
) -> SemanticMediaConfig {
    SemanticMediaConfig {
        mode: if params.video_clip_mode {
            SemanticMediaMode::Video
        } else {
            SemanticMediaMode::Frames
        },
        window_ms,
        resolution,
        persist_evidence: false,
        timestamp_windows: false,
    }
}

/// The reasoning over a source once it is decoded: what the rows have in
/// common, how the model and the markers are set, what is logged before the
/// chunks, and the chunks.
#[derive(Debug)]
pub struct ReasonStart {
    pub context: RowContext,
    pub settings: DispatchSettings,
    pub markers: MarkerConfig,
    pub opening: Vec<EventAppend>,
    pub chunks: Vec<ChunkPrep>,
    /// The schema that the output must follow, as it is sent.
    pub guided_json: Option<String>,
}

/// The rows of a request have this in common.
pub open spec fn reason_context(
    c: RowContext,
    request_id: Seq<char>,
    run_id: Seq<char>,
    payload: RealtimeReasonRequest,
    params: RealtimeReasonParams,
    source_fps: Option<Single>,
    coordinates: Option<JsonView>,
) -> bool {
    &&& c.run_id@ == run_id
    &&& c.stream_id@ == stream_of(opt_text(payload.stream_id))
    &&& c.mode@ == params.mode@
    &&& c.model@ == params.model@
    &&& c.sampling_policy == params.sampling_policy
    &&& c.sample_fps == reason_rate(params.sampling_policy, source_fps, params.fixed_fps)
    &&& c.segment_ms == params.segment_ms
    &&& c.request_id@ == request_id
    &&& c.trace_id@ == trace_of(
        opt_text(payload.trace_id),
        decode_utf8(encode_utf8(request_id).skip(4)),
    )
    &&& opt_json(c.coordinates) == coordinates
}

/// Begins the reasoning over a source. `clip_window_ms` is the length of a clip
/// where clips are asked for, `clip_resolution` how finely it is looked at, and
/// `coordinates` is where the frames lie in the images of the source, where that
/// is known.
pub fn reason_realtime_run(
    request_id: &str,
    run_id: &str,
    payload: &RealtimeReasonRequest,
    params: &RealtimeReasonParams,
    decoded: &DecodeOutcome,
    coordinates: &Option<Json>,
    source_fps: Option<Single>,
    source_duration_ms: Option<u64>,
    clip_window_ms: u64,
    clip_resolution: MediaResolution,
    has_provider: bool,
) -> (r: Result<ReasonStart, Reply>)
    requires
        params.chunk_size > 0,
        payload.trace_id is None ==> is_char_boundary(encode_utf8(request_id@), 4),
    ensures
        match *decoded {
            DecodeOutcome::Refused(error) => r is Err && r->Err_0@ == invalid_field_view(
                request_id@,
                REASON_CONTEXT@,
                "source_uri"@,
                error@,
            ),
            DecodeOutcome::Broke => r is Err && r->Err_0@ == internal_view(request_id@),
            DecodeOutcome::Decoded(signals) => {
                &&& r is Ok
                &&& reason_context(
                    r->Ok_0.context,
                    request_id@,
                    run_id@,
                    *payload,
                    *params,
                    source_fps,
                    opt_json(*coordinates),
                )
                &&& opt_text(r->Ok_0.guided_json) == compact_of(opt_text(payload.output_schema))
                &&& r->Ok_0.settings == settings_of(*params, *payload, has_provider)
                &&& r->Ok_0.markers == reason_markers(payload.marker_correction_window_frames)
                &&& views(r->Ok_0.opening@) == opening_events(
                    request_id@,
                    stream_of(opt_text(payload.stream_id)),
                    payload.source_uri@,
                    opt_text(payload.index_name),
                    params.semantic_inference,
                    r->Ok_0.settings.available,
                )
                &&& ({
                    let ranges = ranges_from(
                        signals@,
                        params.chunk_size as int,
                        clip_window_ms,
                        false,
                        0,
                    );
                    r->Ok_0.chunks@ == preps_upto(
                        signals@,
                        ranges,
                        ranges.len() as int,
                        shown_media(*params, clip_window_ms, clip_resolution),
                        source_duration_ms,
                        r->Ok_0.settings.available,
                    )
                })
            },
        },
{
    let signals = match decoded {
        DecodeOutcome::Decoded(signals) => signals,
        DecodeOutcome::Refused(error) => {
            return Err(refused(request_id, "source_uri", error.as_str()));
        },
        DecodeOutcome::Broke => {
            return Err(internal_error(request_id));
        },
    };
    let trace_id = trace_id_for(&payload.trace_id, request_id);
    let stream_id = stream_id_for(&payload.stream_id);
    let settings = dispatch_settings(params, payload, has_provider);
    let opening = open_reasoning(
        request_id,
        stream_id.as_str(),
        payload.source_uri.as_str(),
        &payload.index_name,
        params.semantic_inference,
        settings.available,
    );
    let media = SemanticMediaConfig {
        mode: if params.video_clip_mode {
            SemanticMediaMode::Video
        } else {
            SemanticMediaMode::Frames
        },
        window_ms: clip_window_ms,
        resolution: clip_resolution,
        persist_evidence: false,
        timestamp_windows: false,
    };
    let chunks = prepare_realtime_chunks(
        signals,
        params.chunk_size,
        media,
        source_duration_ms,
        settings.available,
    );
    let context = RowContext {
        run_id: owned(run_id),
        stream_id,
        mode: owned(params.mode.as_str()),
        model: owned(params.model.as_str()),
        sampling_policy: params.sampling_policy,
        sample_fps: reason_sample_fps(params.sampling_policy, source_fps, params.fixed_fps),
        segment_ms: params.segment_ms,
        request_id: owned(request_id),
        trace_id,
        coordinates: match coordinates {
            Some(c) => Some(c.copy()),
            None => None,
        },
    };
    Ok(
        ReasonStart {
            context,
            settings,
            markers: marker_settings(payload.marker_correction_window_frames),
            opening,
            chunks,
            guided_json: compact_opt(&payload.output_schema),
        },
    )
}

// -------------------------------------------------------------- assembly
/// A chunk that was worked through: its frames with their labels, what a model
/// said of it, and how long it took.
#[derive(Debug)]
pub struct ReasonedChunk {
    pub prep: ChunkPrep,
    pub frames: Vec<LabeledFrame>,
    pub result: ChunkSemanticResult,
    pub process_ms: u64,
}

/// The rows of the first `k` chunks.
pub open spec fn chunk_rows(context: RowContext, chunks: Seq<ReasonedChunk>, k: int) -> Seq<RowView>
    decreases k,
{
    if k <= 0 {
        Seq::empty()
    } else {
        let c = chunks[k - 1];
        chunk_rows(context, chunks, k - 1) + rows_of(
            context,
            c.frames@,
            opt_overlay(c.result.overlay),
            c.result.used_fallback,
            opt_text(c.result.finish_reason),
        )
    }
}

/// What the rows of the first `k` chunks give to the markers.
pub open spec fn chunk_inputs(chunks: Seq<ReasonedChunk>, k: int) -> Seq<InputView>
    decreases k,
{
    if k <= 0 {
        Seq::empty()
    } else {
        let c = chunks[k - 1];
        chunk_inputs(chunks, k - 1) + inputs_of(c.frames@, opt_overlay(c.result.overlay))
    }
}

/// The rows of all chunks, and what they give to the markers.
pub fn reason_rows(context: &RowContext, chunks: &Vec<ReasonedChunk>) -> (r: (
    Vec<AnalyzeFrameMetadata>,
    Vec<MarkerInput>,
))
    requires
        context.segment_ms > 0,
    ensures
        views(r.0@) == chunk_rows(*context, chunks@, chunks@.len() as int),
        views(r.1@) == chunk_inputs(chunks@, chunks@.len() as int),
{
    let mut rows: Vec<AnalyzeFrameMetadata> = Vec::new();
    let mut inputs: Vec<MarkerInput> = Vec::new();
    let mut i: usize = 0;
    assert(views(rows@) =~= Seq::empty());
    assert(views(inputs@) =~= Seq::empty());
    while i < chunks.len()
        invariant
            context.segment_ms > 0,
            i <= chunks@.len(),
            views(rows@) == chunk_rows(*context, chunks@, i as int),
            views(inputs@) == chunk_inputs(chunks@, i as int),
        decreases chunks@.len() - i,
    {
        let c = &chunks[i];
        compose_rows(
            context,
            &c.frames,
            &c.result.overlay,
            c.result.used_fallback,
            &c.result.finish_reason,
            &mut rows,
            &mut inputs,
        );
        i += 1;
    }
    (rows, inputs)
}

/// How much time of the source a chunk spans.
pub open spec fn span_ms(p: ChunkPrep) -> u64 {
    if p.pts_end_ms > p.pts_start_ms {
        (p.pts_end_ms - p.pts_start_ms) as u64
    } else {
        0
    }
}

/// How far the work on a chunk fell behind its source.
pub open spec fn lag_ms(c: ReasonedChunk) -> u64 {
    if c.process_ms > span_ms(c.prep) {
        (c.process_ms - span_ms(c.prep)) as u64
    } else {
        0
    }
}

/// How far the work on each chunk fell behind.
pub open spec fn lags(chunks: Seq<ReasonedChunk>) -> Seq<u64> {
    chunks.map_values(|c: ReasonedChunk| lag_ms(c))
}

/// A payload with the index that it belongs to, where there is one.
pub open spec fn indexed(payload: JsonView, index_name: Option<Seq<char>>) -> JsonView {
    match (payload, index_name) {
        (JsonView::Object(fields), Some(name)) => JsonView::Object(
            with_field(fields, "index_name"@, JsonView::Text(name)),
        ),
        _ => payload,
    }
}

/// The event on the work on a chunk.
pub open spec fn chunk_done(
    request_id: Seq<char>,
    stream_id: Seq<char>,
    index_name: Option<Seq<char>>,
    c: ReasonedChunk,
    i: int,
) -> JsonView {
    JsonView::Object(
        seq![
            ("request_id"@, JsonView::Text(request_id)),
            ("stream_id"@, JsonView::Text(stream_id)),
            ("chunk_index"@, number_view(i as u64)),
            ("chunk_frames"@, number_view(c.prep.chunk_len as u64)),
            ("process_ms"@, number_view(c.process_ms)),
            ("source_span_ms"@, number_view(span_ms(c.prep))),
            ("lag_ms"@, number_view(lag_ms(c))),
            ("index_name"@, text_or_null(index_name)),
        ],
    )
}

/// The events on a chunk: what a model said of it, where one was asked, and the
/// work on it.
pub open spec fn events_on_chunk(
    request_id: Seq<char>,
    stream_id: Seq<char>,
    index_name: Option<Seq<char>>,
    c: ReasonedChunk,
    i: int,
) -> Seq<(Seq<char>, JsonView)> {
    let done = (
        "semantic_chunk_generated"@,
        chunk_done(request_id, stream_id, index_name, c, i),
    );
    if c.result.attempted {
        seq![
            (
                "semantic_chunk_inferred"@,
                indexed(chunk_payload(c.result@, i, request_id, stream_id), index_name),
            ),
            done,
        ]
    } else {
        seq![done]
    }
}

/// The events on the first `k` chunks.
pub open spec fn chunk_events(
    request_id: Seq<char>,
    stream_id: Seq<char>,
    index_name: Option<Seq<char>>,
    chunks: Seq<ReasonedChunk>,
    k: int,
) -> Seq<(Seq<char>, JsonView)>
    decreases k,
{
    if k <= 0 {
        Seq::empty()
    } else {
        chunk_events(request_id, stream_id, index_name, chunks, k - 1) + events_on_chunk(
            request_id,
            stream_id,
            index_name,
            chunks[k - 1],
            k - 1,
        )
    }
}

/// What the first `k` chunks spent: that of each for which a model was asked.
pub open spec fn spent(chunks: Seq<ReasonedChunk>, k: int) -> TokenMetrics
    decreases k,
{
    if k <= 0 {
        TokenMetrics {
            prompt_tokens: 0,
            completion_tokens: 0,
            thinking_tokens: 0,
            total_tokens: 0,
            inference_latency_ms: 0,
            chunks_analyzed: 0,
        }
    } else {
        let c = chunks[k - 1].result;
        if c.attempted {
            spent(chunks, k - 1).with_chunk(c.usage, c.inference_latency_ms)
        } else {
            spent(chunks, k - 1)
        }
    }
}

fn put_index(payload: Json, index_name: &Option<String>) -> (r: Json)
    ensures
        r@ == indexed(payload@, opt_text(*index_name)),
{
    match index_name {
        None => payload,
        Some(name) => match payload.into_fields() {
            Ok(fields) => {
                let mut o = fields;
                o.set("index_name", Json::text(name.as_str()));
                o.object()
            },
            Err(other) => other,
        },
    }
}

fn append_chunk(
    appends: &mut Vec<EventAppend>,
    request_id: &str,
    stream_id: &str,
    index_name: &Option<String>,
    c: &ReasonedChunk,
    i: usize,
) -> (lag: u64)
    ensures
        lag == lag_ms(*c),
        views(final(appends)@) == views(old(appends)@) + events_on_chunk(
            request_id@,
            stream_id@,
            opt_text(*index_name),
            *c,
            i as int,
        ),
{
    let ghost start = views(appends@);
    let ghost want = events_on_chunk(
        request_id@,
        stream_id@,
        opt_text(*index_name),
        *c,
        i as int,
    );
    match c.result.event_payload(i, request_id, stream_id) {
        Some(details) => {
            let payload = put_index(details, index_name);
            let ghost pv = payload@;
            appends.push(EventAppend { kind: "semantic_chunk_inferred", payload });
            assert(views(appends@) =~= start.push(("semantic_chunk_inferred"@, pv)));
            assert(views(appends@) =~= start + want.take(want.len() - 1));
        },
        None => {
            assert(views(appends@) =~= start + want.take(want.len() - 1));
        },
    }
    let span: u64 = c.prep.pts_end_ms.saturating_sub(c.prep.pts_start_ms);
    let lag: u64 = c.process_ms.saturating_sub(span);
    let mut o = Fields::new();
    o.put("request_id", Json::text(request_id));
    o.put("stream_id", Json::text(stream_id));
    o.put("chunk_index", Json::number(i as u64));
    o.put("chunk_frames", Json::number(c.prep.chunk_len as u64));
    o.put("process_ms", Json::number(c.process_ms));
    o.put("source_span_ms", Json::number(span));
    o.put("lag_ms", Json::number(lag));
    o.put("index_name", Json::text_or_null(index_name));
    assert(o@ =~= chunk_done(
        request_id@,
        stream_id@,
        opt_text(*index_name),
        *c,
        i as int,
    )->Object_0);
    let ghost before = views(appends@);
    let ghost done = JsonView::Object(o@);
    appends.push(EventAppend { kind: "semantic_chunk_generated", payload: o.object() });
    assert(views(appends@) =~= before.push(("semantic_chunk_generated"@, done)));
    assert(views(appends@) =~= start + want);
    lag
}

/// The event on the whole.
pub open spec fn reasoned_payload(
    c: RowContext,
    frames: nat,
    markers: nat,
    source_fps: Option<Single>,
    lag_p95_ms: u64,
    lag_p99_ms: u64,
    index_name: Option<Seq<char>>,
) -> JsonView {
    JsonView::Object(
        seq![
            ("request_id"@, JsonView::Text(c.request_id@)),
            ("stream_id"@, JsonView::Text(c.stream_id@)),
            ("frames"@, number_view(frames as u64)),
            ("markers"@, number_view(markers as u64)),
            ("sampling_policy"@, JsonView::Text(c.sampling_policy.name())),
            ("source_fps"@, single_or_null(source_fps)),
            ("sample_fps"@, fraction_view(c.sample_fps.widened())),
            ("lag_p95_ms"@, number_view(lag_p95_ms)),
            ("lag_p99_ms"@, number_view(lag_p99_ms)),
            ("mode"@, JsonView::Text(c.mode@)),
            ("model"@, JsonView::Text(c.model@)),
            ("index_name"@, text_or_null(index_name)),
        ],
    )
}

/// The event that ends a run.
pub open spec fn completed_payload(
    c: RowContext,
    frames: nat,
    markers: nat,
    index_name: Option<Seq<char>>,
) -> JsonView {
    JsonView::Object(
        seq![
            ("request_id"@, JsonView::Text(c.request_id@)),
            ("stream_id"@, JsonView::Text(c.stream_id@)),
            ("frames"@, number_view(frames as u64)),
            ("markers"@, number_view(markers as u64)),
            ("index_name"@, text_or_null(index_name)),
        ],
    )
}

/// Spent tokens as JSON.
pub open spec fn spent_json(t: TokenMetrics) -> JsonView {
    JsonView::Object(
        seq![
            ("prompt_tokens"@, number_view(t.prompt_tokens as u64)),
            ("completion_tokens"@, number_view(t.completion_tokens as u64)),
            ("thinking_tokens"@, number_view(t.thinking_tokens as u64)),
            ("total_tokens"@, number_view(t.total_tokens as u64)),
            ("inference_latency_ms"@, number_view(t.inference_latency_ms)),
            ("chunks_analyzed"@, number_view(t.chunks_analyzed as u64)),
        ],
    )
}

/// The reply with rows and markers.
pub open spec fn reasoned_view(
    c: RowContext,
    decoded_frames: nat,
    lag_p95_ms: u64,
    lag_p99_ms: u64,
    tokens: TokenMetrics,
    rows: Seq<RowView>,
    markers: Seq<MarkerView>,
) -> JsonView {
    JsonView::Object(
        seq![
            ("request_id"@, JsonView::Text(c.request_id@)),
            ("run_id"@, JsonView::Text(c.run_id@)),
            ("generated"@, number_view(rows.len() as u64)),
            ("markers_emitted"@, number_view(markers.len() as u64)),
            ("decoded_frames"@, number_view(decoded_frames as u64)),
            ("sample_fps"@, fraction_view(c.sample_fps.widened())),
            ("lag_p95_ms"@, number_view(lag_p95_ms)),
            ("lag_p99_ms"@, number_view(lag_p99_ms)),
            ("tokens"@, spent_json(tokens)),
            ("metadata"@, JsonView::Array(jsons_of::<AnalyzeFrameMetadata>(rows))),
            ("markers"@, JsonView::Array(jsons_of::<AnalyzeMarker>(markers))),
        ],
    )
}

/// What worked-through chunks lead to: the events on each chunk, those on the
/// markers, the one on the whole and the one that ends the run; and the rows,
/// the markers and the lags in the reply.
pub open spec fn reason_plan(
    c: RowContext,
    chunks: Seq<ReasonedChunk>,
    rows: Seq<RowView>,
    markers: Seq<MarkerView>,
    decoded_frames: nat,
    source_fps: Option<Single>,
    index_name: Option<Seq<char>>,
) -> PlanView {
    let p95 = percentile_of(lags(chunks), 95);
    let p99 = percentile_of(lags(chunks), 99);
    PlanView {
        appends: (chunk_events(
            c.request_id@,
            c.stream_id@,
            index_name,
            chunks,
            chunks.len() as int,
        ) + marker_events(markers, index_name)).push(
            (
                "analysis_generated"@,
                reasoned_payload(
                    c,
                    rows.len(),
                    markers.len(),
                    source_fps,
                    p95,
                    p99,
                    index_name,
                ),
            ),
        ).push(("run_completed"@, completed_payload(c, rows.len(), markers.len(), index_name))),
        reply: ok_view(
            reasoned_view(
                c,
                decoded_frames,
                p95,
                p99,
                spent(chunks, chunks.len() as int),
                rows,
                markers,
            ),
        ),
    }
}

fn tell_reasoned(
    c: &RowContext,
    frames: usize,
    markers: usize,
    source_fps: Option<Single>,
    lag_p95_ms: u64,
    lag_p99_ms: u64,
    index_name: &Option<String>,
) -> (r: Json)
    ensures
        r@ == reasoned_payload(
            *c,
            frames as nat,
            markers as nat,
            source_fps,
            lag_p95_ms,
            lag_p99_ms,
            opt_text(*index_name),
        ),
{
    let mut o = Fields::new();
    o.put("request_id", Json::text(c.request_id.as_str()));
    o.put("stream_id", Json::text(c.stream_id.as_str()));
    o.put("frames", Json::number(frames as u64));
    o.put("markers", Json::number(markers as u64));
    o.put("sampling_policy", Json::text(c.sampling_policy.as_str()));
    o.put(
        "source_fps",
        match source_fps {
            Some(fps) => Json::single(fps),
            None => Json::Null,
        },
    );
    o.put("sample_fps", Json::single(c.sample_fps));
    o.put("lag_p95_ms", Json::number(lag_p95_ms));
    o.put("lag_p99_ms", Json::number(lag_p99_ms));
    o.put("mode", Json::text(c.mode.as_str()));
    o.put("model", Json::text(c.model.as_str()));
    o.put("index_name", Json::text_or_null(index_name));
    assert(o@ =~= reasoned_payload(
        *c,
        frames as nat,
        markers as nat,
        source_fps,
        lag_p95_ms,
        lag_p99_ms,
        opt_text(*index_name),
    )->Object_0);
    o.object()
}

fn tell_completed(
    c: &RowContext,
    frames: usize,
    markers: usize,
    index_name: &Option<String>,
) -> (r: Json)
    ensures
        r@ == completed_payload(*c, frames as nat, markers as nat, opt_text(*index_name)),
{
    let mut o = Fields::new();
    o.put("request_id", Json::text(c.request_id.as_str()));
    o.put("stream_id", Json::text(c.stream_id.as_str()));
    o.put("frames", Json::number(frames as u64));
    o.put("markers", Json::number(markers as u64));
    o.put("index_name", Json::text_or_null(index_name));
    assert(o@ =~= completed_payload(
        *c,
        frames as nat,
        markers as nat,
        opt_text(*index_name),
    )->Object_0);
    o.object()
}

fn tell_spent(t: TokenMetrics) -> (r: Json)
    ensures
        r@ == spent_json(t),
{
    let mut o = Fields::new();
    o.put("prompt_tokens", Json::number(t.prompt_tokens as u64));
    o.put("completion_tokens", Json::number(t.completion_tokens as u64));
    o.put("thinking_tokens", Json::number(t.thinking_tokens as u64));
    o.put("total_tokens", Json::number(t.total_tokens as u64));
    o.put("inference_latency_ms", Json::number(t.inference_latency_ms));
    o.put("chunks_analyzed", Json::number(t.chunks_analyzed as u64));
    assert(o@ =~= spent_json(t)->Object_0);
    o.object()
}

fn tell_reply(
    c: &RowContext,
    decoded_frames: usize,
    lag_p95_ms: u64,
    lag_p99_ms: u64,
    tokens: TokenMetrics,
    rows: &Vec<AnalyzeFrameMetadata>,
    markers: &Vec<AnalyzeMarker>,
) -> (r: Json)
    ensures
        r@ == reasoned_view(
            *c,
            decoded_frames as nat,
            lag_p95_ms,
            lag_p99_ms,
            tokens,
            views(rows@),
            views(markers@),
        ),
{
    let mut o = Fields::new();
    o.put("request_id", Json::text(c.request_id.as_str()));
    o.put("run_id", Json::text(c.run_id.as_str()));
    o.put("generated", Json::number(rows.len() as u64));
    o.put("markers_emitted", Json::number(markers.len() as u64));
    o.put("decoded_frames", Json::number(decoded_frames as u64));
    o.put("sample_fps", Json::single(c.sample_fps));
    o.put("lag_p95_ms", Json::number(lag_p95_ms));
    o.put("lag_p99_ms", Json::number(lag_p99_ms));
    o.put("tokens", tell_spent(tokens));
    o.put("metadata", list_of(rows));
    o.put("markers", list_of(markers));
    assert(o@ =~= reasoned_view(
        *c,
        decoded_frames as nat,
        lag_p95_ms,
        lag_p99_ms,
        tokens,
        views(rows@),
        views(markers@),
    )->Object_0);
    o.object()
}

/// Tells of worked-through chunks. `rows` tell of their frames, and `rated` are
/// the runs that they form, with how certain each is.
pub fn assemble_realtime_reason_response(
    context: &RowContext,
    chunks: &Vec<ReasonedChunk>,
    rows: &Vec<AnalyzeFrameMetadata>,
    rated: &Vec<RatedSegment>,
    marker_config: &MarkerConfig,
    decoded_frames: usize,
    source_fps: Option<Single>,
    index_name: &Option<String>,
) -> (r: Plan)
    requires
        chunks@.len() <= 0x20_0000_0000_0000,
    ensures
        r@ == reason_plan(
            *context,
            chunks@,
            views(rows@),
            lifecycle(
                context.run_id@,
                context.stream_id@,
                views(rated@),
                *marker_config,
                rated@.len() as int,
            ),
            decoded_frames as nat,
            source_fps,
            opt_text(*index_name),
        ),
{
    let ghost tag = opt_text(*index_name);
    let mut appends: Vec<EventAppend> = Vec::new();
    let mut chunk_lags: Vec<u64> = Vec::new();
    let mut tokens = TokenMetrics::default();
    let mut i: usize = 0;
    assert(views(appends@) =~= Seq::empty());
    assert(lags(chunks@).take(0) =~= Seq::empty());
    while i < chunks.len()
        invariant
            i <= chunks@.len(),
            tag == opt_text(*index_name),
            views(appends@) == chunk_events(
                context.request_id@,
                context.stream_id@,
                tag,
                chunks@,
                i as int,
            ),
            chunk_lags@ == lags(chunks@).take(i as int),
            tokens == spent(chunks@, i as int),
            tokens.chunks_analyzed <= i,
        decreases chunks@.len() - i,
    {
        let c = &chunks[i];
        let lag: u64 = append_chunk(
            &mut appends,
            context.request_id.as_str(),
            context.stream_id.as_str(),
            index_name,
            c,
            i,
        );
        chunk_lags.push(lag);
        assert(lags(chunks@).take(i + 1) =~= lags(chunks@).take(i as int).push(lag));
        if c.result.attempted {
            tokens.accumulate_chunk(c.result.usage, c.result.inference_latency_ms);
        }
        i += 1;
    }
    assert(lags(chunks@).take(i as int) =~= lags(chunks@));
    let markers = api_markers(
        context.run_id.as_str(),
        context.stream_id.as_str(),
        rated,
        marker_config,
    );
    append_markers(&mut appends, &markers, index_name);
    let lag_p95_ms: u64 = percentile_ms(&chunk_lags, 95);
    let lag_p99_ms: u64 = percentile_ms(&chunk_lags, 99);
    let ghost want = reason_plan(
        *context,
        chunks@,
        views(rows@),
        views(markers@),
        decoded_frames as nat,
        source_fps,
        tag,
    );
    let ghost before = views(appends@);
    let analysis = tell_reasoned(
        context,
        rows.len(),
        markers.len(),
        source_fps,
        lag_p95_ms,
        lag_p99_ms,
        index_name,
    );
    let ghost analysis_view = analysis@;
    appends.push(EventAppend { kind: "analysis_generated", payload: analysis });
    assert(views(appends@) =~= before.push(("analysis_generated"@, analysis_view)));
    let ghost then = views(appends@);
    let completed = tell_completed(context, rows.len(), markers.len(), index_name);
    let ghost completed_view = completed@;
    appends.push(EventAppend { kind: "run_completed", payload: completed });
    assert(views(appends@) =~= then.push(("run_completed"@, completed_view)));
    assert(views(appends@) == want.appends);
    let body = tell_reply(
        context,
        decoded_frames,
        lag_p95_ms,
        lag_p99_ms,
        tokens,
        rows,
        &markers,
    );
    Plan { appends, reply: ok(body) }
}

// ------------------------------------------------------------------ laws
/// There is one row for each frame of the chunks.
pub proof fn every_frame_has_its_row(context: RowContext, chunks: Seq<ReasonedChunk>, k: int)
    requires
        0 <= k <= chunks.len(),
    ensures
        chunk_rows(context, chunks, k).len() == frame_count(chunks, k),
        chunk_inputs(chunks, k).len() == frame_count(chunks, k),
    decreases k,
{
    if k > 0 {
        every_frame_has_its_row(context, chunks, k - 1);
    }
}

/// How many frames the first `k` chunks have.
pub open spec fn frame_count(chunks: Seq<ReasonedChunk>, k: int) -> nat
    decreases k,
{
    if k <= 0 {
        0
    } else {
        frame_count(chunks, k - 1) + chunks[k - 1].frames@.len()
    }
}

/// The run ends with the last event, and with no event before it.
pub proof fn reasoning_ends_the_run(
    c: RowContext,
    chunks: Seq<ReasonedChunk>,
    rows: Seq<RowView>,
    markers: Seq<MarkerView>,
    decoded_frames: nat,
    source_fps: Option<Single>,
    index_name: Option<Seq<char>>,
)
    ensures
        ({
            let appends = reason_plan(
                c,
                chunks,
                rows,
                markers,
                decoded_frames,
                source_fps,
                index_name,
            ).appends;
            &&& appends.last().0 == "run_completed"@
            &&& forall|i: int|
                0 <= i < appends.len() - 1 ==> (#[trigger] appends[i]).0 != "run_completed"@
        }),
{
    reveal_strlit("run_completed");
    reveal_strlit("analysis_generated");
    reveal_strlit("marker_emitted");
    reveal_strlit("semantic_chunk_generated");
    reveal_strlit("semantic_chunk_inferred");
    assert("run_completed"@.len() == 13);
    assert("analysis_generated"@.len() == 18);
    assert("marker_emitted"@.len() == 14);
    let all = chunk_events(c.request_id@, c.stream_id@, index_name, chunks, chunks.len() as int);
    lemma_chunk_event_kinds(
        c.request_id@,
        c.stream_id@,
        index_name,
        chunks,
        chunks.len() as int,
    );
    let told = marker_events(markers, index_name);
    let appends = reason_plan(
        c,
        chunks,
        rows,
        markers,
        decoded_frames,
        source_fps,
        index_name,
    ).appends;
    assert forall|i: int| 0 <= i < appends.len() - 1 implies (#[trigger] appends[i]).0
        != "run_completed"@ by {
        if i < all.len() {
            assert(appends[i] == all[i]);
        } else if i < all.len() + told.len() {
            assert(appends[i] == told[i - all.len()]);
        }
    }
}

proof fn lemma_chunk_event_kinds(
    request_id: Seq<char>,
    stream_id: Seq<char>,
    index_name: Option<Seq<char>>,
    chunks: Seq<ReasonedChunk>,
    k: int,
)
    requires
        0 <= k <= chunks.len(),
    ensures
        forall|i: int|
            0 <= i < chunk_events(request_id, stream_id, index_name, chunks, k).len() ==> (
            #[trigger] chunk_events(request_id, stream_id, index_name, chunks, k)[i]).0
                != "run_completed"@,
    decreases k,
{
    reveal_strlit("run_completed");
    reveal_strlit("semantic_chunk_generated");
    reveal_strlit("semantic_chunk_inferred");
    assert("run_completed"@.len() == 13);
    assert("semantic_chunk_generated"@.len() == 24);
    assert("semantic_chunk_inferred"@.len() == 23);
    if k > 0 {
        lemma_chunk_event_kinds(request_id, stream_id, index_name, chunks, k - 1);
        let before = chunk_events(request_id, stream_id, index_name, chunks, k - 1);
        let here = events_on_chunk(request_id, stream_id, index_name, chunks[k - 1], k - 1);
        let all = chunk_events(request_id, stream_id, index_name, chunks, k);
        assert forall|i: int| 0 <= i < all.len() implies (#[trigger] all[i]).0
            != "run_completed"@ by {
            if i < before.len() {
                assert(all[i] == before[i]);
            } else {
                assert(all[i] == here[i - before.len()]);
            }
        }
    }
}

/// A reason request is taken up exactly where everything that it says is within
/// its bounds, whether it says it or leaves it to the usual.
pub proof fn reason_requests_keep_their_bounds(
    payload: RealtimeReasonRequest,
    mode: Result<String, String>,
    model: Result<String, String>,
    source: Result<SourceLookup, String>,
)
    ensures
        reason_problem(payload, mode, model, source) is None <==> {
            let policy = sampling_policy_of(opt_text(payload.sampling_policy));
            &&& mode is Ok && model is Ok && source is Ok && policy is Some
            &&& payload.max_frames is Some ==> 1 <= payload.max_frames->0 <= 500_000
            &&& payload.chunk_size is Some ==> 5 <= payload.chunk_size->0 <= 500
            &&& payload.window_size is Some ==> 2 <= payload.window_size->0 <= 256
            &&& payload.segment_ms is Some ==> 1 <= payload.segment_ms->0
            &&& payload.semantic_frames_per_chunk is Some ==> 1
                <= payload.semantic_frames_per_chunk->0 <= 4
            &&& payload.semantic_timeout_ms is Some ==> 100 <= payload.semantic_timeout_ms->0
                <= 120_000
            &&& payload.semantic_prompt is Some ==> trimmed(payload.semantic_prompt->0@).len() > 0
                && encode_utf8(payload.semantic_prompt->0@).len() <= 4_096
            &&& payload.semantic_prompt is None ==> trimmed(USUAL_PROMPT@).len() > 0
                && encode_utf8(USUAL_PROMPT@).len() <= 4_096
            &&& payload.video_clip_mode == Some(true) && payload.video_clip_duration_s is Some
                ==> clip_length(payload.video_clip_duration_s->0)
            &&& policy == Some(SamplingPolicy::Fixed) && payload.fixed_fps is Some ==> is_rate(
                payload.fixed_fps->0,
            )
        },
{
}

/// What a model is asked follows the request: it is asked where that is wanted
/// and there is one, single frames are decoded where no clips are asked for,
/// chunks are chained where that or the last frame before is asked for, and as
/// many calls are in flight as are asked for, at least one and at most 64.
pub proof fn models_are_asked_as_requested(
    params: RealtimeReasonParams,
    payload: RealtimeReasonRequest,
    has_provider: bool,
)
    ensures
        ({
            let s = settings_of(params, payload, has_provider);
            let asked = payload.vlm_concurrency;
            &&& s.available <==> params.semantic_inference && has_provider
            &&& s.decode_frames <==> s.available && !params.video_clip_mode
            &&& s.visual_diff ==> s.temporal_chain
            &&& s.visual_diff <==> payload.visual_diff == Some(true)
            &&& payload.temporal_chain == Some(true) ==> s.temporal_chain
            &&& s.temporal_chain ==> payload.temporal_chain == Some(true) || s.visual_diff
            &&& 1 <= s.concurrency <= 64
            &&& asked is None ==> s.concurrency == 4
            &&& asked is Some && 1 <= asked->0 <= 64 ==> s.concurrency == asked->0
            &&& asked is Some && asked->0 > 64 ==> s.concurrency == 64
            &&& asked == Some(0usize) ==> s.concurrency == 1
        }),
{
}

/// The event on the work on a chunk tells how far it fell behind: the time that
/// the work took beyond the time that the chunk spans in the source, or nothing
/// where it took no longer.
pub proof fn lags_are_work_beyond_the_span(
    request_id: Seq<char>,
    stream_id: Seq<char>,
    index_name: Option<Seq<char>>,
    c: ReasonedChunk,
    i: int,
)
    requires
        c.prep.pts_start_ms <= c.prep.pts_end_ms,
        0 <= i <= u64::MAX,
    ensures
        ({
            let told = chunk_done(request_id, stream_id, index_name, c, i);
            let span = told.unsigned_at("source_span_ms"@)->0;
            let lag = told.unsigned_at("lag_ms"@)->0;
            &&& told.unsigned_at("chunk_index"@) == Some(i as u64)
            &&& told.unsigned_at("chunk_frames"@) == Some(c.prep.chunk_len as u64)
            &&& told.unsigned_at("process_ms"@) == Some(c.process_ms)
            &&& told.unsigned_at("source_span_ms"@) is Some
            &&& told.unsigned_at("lag_ms"@) is Some
            &&& c.prep.pts_start_ms + span == c.prep.pts_end_ms
            &&& c.process_ms <= span ==> lag == 0
            &&& span <= c.process_ms ==> span + lag == c.process_ms
            &&& lag == lags(seq![c])[0]
        }),
{
    reveal_strlit("request_id");
    reveal_strlit("stream_id");
    reveal_strlit("chunk_index");
    reveal_strlit("chunk_frames");
    reveal_strlit("process_ms");
    reveal_strlit("source_span_ms");
    reveal_strlit("lag_ms");
    assert("request_id"@.len() == 10 && "stream_id"@.len() == 9 && "chunk_index"@.len() == 11
        && "chunk_frames"@.len() == 12 && "process_ms"@.len() == 10 && "source_span_ms"@.len() == 14
        && "lag_ms"@.len() == 6);
    assert("request_id"@[0] == 'r' && "process_ms"@[0] == 'p');
    let fields = chunk_done(request_id, stream_id, index_name, c, i)->Object_0;
    field_is_found(fields, 2);
    field_is_found(fields, 3);
    field_is_found(fields, 4);
    field_is_found(fields, 5);
    field_is_found(fields, 6);
}

/// What a reply tells to be spent is what the chunks spent for which a model was
/// asked: one more such chunk adds its tokens, its time and itself, as far as
/// the numbers reach, and any other chunk adds nothing.
pub proof fn each_asked_chunk_is_paid_for(chunks: Seq<ReasonedChunk>, k: int)
    requires
        0 <= k < chunks.len() < usize::MAX,
        spent(chunks, k).chunks_analyzed < usize::MAX,
    ensures
        ({
            let before = spent(chunks, k);
            let after = spent(chunks, k + 1);
            let c = chunks[k].result;
            &&& c.attempted ==> {
                &&& after.chunks_analyzed == before.chunks_analyzed + 1
                &&& before.prompt_tokens + c.usage.prompt_tokens <= u32::MAX ==> after.prompt_tokens
                    == before.prompt_tokens + c.usage.prompt_tokens
                &&& before.completion_tokens + c.usage.completion_tokens <= u32::MAX
                    ==> after.completion_tokens == before.completion_tokens
                    + c.usage.completion_tokens
                &&& before.thinking_tokens + c.usage.thinking_tokens <= u32::MAX
                    ==> after.thinking_tokens == before.thinking_tokens + c.usage.thinking_tokens
                &&& before.total_tokens + c.usage.total_tokens <= u32::MAX ==> after.total_tokens
                    == before.total_tokens + c.usage.total_tokens
                &&& before.inference_latency_ms + c.inference_latency_ms <= u64::MAX
                    ==> after.inference_latency_ms == before.inference_latency_ms
                    + c.inference_latency_ms
            }
            &&& !c.attempted ==> after == before
            &&& spent(chunks, 0).total_tokens == 0 && spent(chunks, 0).chunks_analyzed == 0
        }),
{
}

/// The reply tells how many rows and markers there are, how many frames were
/// decoded, and how far the work fell behind at the 95th and at the 99th
/// percentile of the chunks.
pub proof fn replies_tell_of_the_whole_run(
    c: RowContext,
    chunks: Seq<ReasonedChunk>,
    rows: Seq<RowView>,
    markers: Seq<MarkerView>,
    decoded_frames: nat,
    source_fps: Option<Single>,
    index_name: Option<Seq<char>>,
)
    requires
        rows.len() <= u64::MAX,
        markers.len() <= u64::MAX,
        decoded_frames <= u64::MAX,
    ensures
        ({
            let reply = reason_plan(
                c,
                chunks,
                rows,
                markers,
                decoded_frames,
                source_fps,
                index_name,
            ).reply;
            &&& reply.status == 200
            &&& reply.body.text_at("request_id"@) == Some(c.request_id@)
            &&& reply.body.text_at("run_id"@) == Some(c.run_id@)
            &&& reply.body.unsigned_at("generated"@) == Some(rows.len() as u64)
            &&& reply.body.unsigned_at("markers_emitted"@) == Some(markers.len() as u64)
            &&& reply.body.unsigned_at("decoded_frames"@) == Some(decoded_frames as u64)
            &&& reply.body.unsigned_at("lag_p95_ms"@) == Some(percentile_of(lags(chunks), 95))
            &&& reply.body.unsigned_at("lag_p99_ms"@) == Some(percentile_of(lags(chunks), 99))
            &&& reply.body.items_at("metadata"@) is Some && reply.body.items_at(
                "metadata"@,
            )->0.len() == rows.len()
            &&& reply.body.items_at("markers"@) is Some && reply.body.items_at(
                "markers"@,
            )->0.len() == markers.len()
        }),
{
    reveal_strlit("request_id");
    reveal_strlit("run_id");
    reveal_strlit("generated");
    reveal_strlit("markers_emitted");
    reveal_strlit("decoded_frames");
    reveal_strlit("sample_fps");
    reveal_strlit("lag_p95_ms");
    reveal_strlit("lag_p99_ms");
    reveal_strlit("tokens");
    reveal_strlit("metadata");
    reveal_strlit("markers");
    assert("request_id"@.len() == 10 && "run_id"@.len() == 6 && "generated"@.len() == 9
        && "markers_emitted"@.len() == 15 && "decoded_frames"@.len() == 14 && "sample_fps"@.len()
        == 10 && "lag_p95_ms"@.len() == 10 && "lag_p99_ms"@.len() == 10 && "tokens"@.len() == 6
        && "metadata"@.len() == 8 && "markers"@.len() == 7);
    assert("request_id"@[0] == 'r' && "sample_fps"@[0] == 's' && "lag_p95_ms"@[0] == 'l'
        && "lag_p99_ms"@[0] == 'l' && "lag_p95_ms"@[6] == '5' && "lag_p99_ms"@[6] == '9');
    let fields = reason_plan(
        c,
        chunks,
        rows,
        markers,
        decoded_frames,
        source_fps,
        index_name,
    ).reply.body->Object_0;
    field_is_found(fields, 0);
    field_is_found(fields, 1);
    field_is_found(fields, 2);
    field_is_found(fields, 3);
    field_is_found(fields, 4);
    field_is_found(fields, 6);
    field_is_found(fields, 7);
    field_is_found(fields, 9);
    field_is_found(fields, 10);
}

/// The rows of a run are those of its chunks, one chunk behind the other, and
/// within a chunk one row for each frame, in their order, of that frame.
pub proof fn rows_follow_the_frames(
    context: RowContext,
    chunks: Seq<ReasonedChunk>,
    k: int,
    i: int,
)
    requires
        0 <= k < chunks.len(),
        0 <= i < chunks[k].frames@.len(),
    ensures
        ({
            let before = chunk_rows(context, chunks, k);
            let after = chunk_rows(context, chunks, k + 1);
            let row = after[before.len() + i];
            let frame = chunks[k].frames@[i].frame;
            &&& before.is_prefix_of(after)
            &&& after.len() == before.len() + chunks[k].frames@.len()
            &&& row.frame_index == frame.frame_index
            &&& row.pts_ms == frame.pts_ms
            &&& row.window_start_ms == frame.segment_start_ms
            &&& row.window_end_ms == frame.segment_end_ms
            &&& row.run_id == context.run_id@ && row.stream_id == context.stream_id@
        }),
{
}

/// The log tells of the chunks in their order: of each what a model said of it,
/// where one was asked, and then the work on it. The markers follow, one event
/// each.
pub proof fn each_chunk_is_logged(
    c: RowContext,
    chunks: Seq<ReasonedChunk>,
    k: int,
    index_name: Option<Seq<char>>,
)
    requires
        0 <= k < chunks.len(),
    ensures
        ({
            let before = chunk_events(c.request_id@, c.stream_id@, index_name, chunks, k);
            let after = chunk_events(c.request_id@, c.stream_id@, index_name, chunks, k + 1);
            &&& before.is_prefix_of(after)
            &&& after.len() == before.len() + (if chunks[k].result.attempted {
                2int
            } else {
                1
            })
            &&& after.last().0 == "semantic_chunk_generated"@
            &&& chunks[k].result.attempted ==> after[after.len() - 2].0
                == "semantic_chunk_inferred"@
        }),
{
}

/// What a request leaves open is set to its usual value, and what it gives is
/// taken as it is.
pub proof fn requests_are_filled_up(
    p: RealtimeReasonParams,
    payload: RealtimeReasonRequest,
    mode: Seq<char>,
    model: Seq<char>,
)
    requires
        reasons_about(p, payload, mode, model),
    ensures
        p.mode@ == mode,
        p.model@ == model,
        payload.max_frames matches Some(n) ==> p.max_frames == n,
        payload.max_frames is None ==> p.max_frames == 120_000,
        payload.chunk_size matches Some(n) ==> p.chunk_size == n,
        payload.chunk_size is None ==> p.chunk_size == 25,
        payload.window_size matches Some(n) ==> p.window_size == n,
        payload.window_size is None ==> p.window_size == 16,
        payload.segment_ms matches Some(n) ==> p.segment_ms == n,
        payload.segment_ms is None ==> p.segment_ms == 250,
        payload.semantic_inference matches Some(b) ==> p.semantic_inference == b,
        payload.semantic_inference is None ==> p.semantic_inference,
        payload.semantic_frames_per_chunk matches Some(n) ==> p.semantic_frames_per_chunk == n,
        payload.semantic_frames_per_chunk is None ==> p.semantic_frames_per_chunk == 2,
        payload.semantic_timeout_ms matches Some(n) ==> p.semantic_timeout_ms == n,
        payload.semantic_timeout_ms is None ==> p.semantic_timeout_ms == 1_500,
        payload.semantic_prompt matches Some(t) ==> p.semantic_prompt@ == t@,
        payload.semantic_prompt is None ==> p.semantic_prompt@ == USUAL_PROMPT@,
        payload.first_pass_model matches Some(t) ==> p.models.first_pass_model@ == t@,
        payload.first_pass_model is None ==> p.models.first_pass_model@ == model,
        payload.second_pass_model matches Some(t) ==> p.models.second_pass_model@ == t@,
        payload.second_pass_model is None ==> p.models.second_pass_model@ == model,
        p.models.second_pass_max_tokens == 256,
        payload.video_clip_mode matches Some(b) ==> p.video_clip_mode == b,
        payload.video_clip_mode is None ==> !p.video_clip_mode,
        payload.fixed_fps matches Some(s) ==> p.fixed_fps == s,
        payload.fixed_fps is None ==> p.fixed_fps == single(0x3f80_0000),
{
}

/// A run is begun with what it reads, and told to go on without a model where
/// one was wanted and there is none.
pub proof fn runs_without_a_model_say_so(
    request_id: Seq<char>,
    stream_id: Seq<char>,
    source_uri: Seq<char>,
    index_name: Option<Seq<char>>,
    wanted: bool,
    available: bool,
)
    ensures
        ({
            let events = opening_events(
                request_id,
                stream_id,
                source_uri,
                index_name,
                wanted,
                available,
            );
            &&& events.len() == if wanted && !available {
                2nat
            } else {
                1
            }
            &&& events[0].0 == "ingest_received"@
            &&& events[0].1.text_at("request_id"@) == Some(request_id)
            &&& events[0].1.text_at("source_uri"@) == Some(source_uri)
            &&& events[0].1.text_at("index_name"@) == index_name
            &&& wanted && !available ==> events[1].0 == "semantic_fallback_activated"@
                && events[1].1.text_at("stream_id"@) == Some(stream_id) && events[1].1.text_at(
                "reason"@,
            ) == Some("provider_not_configured"@)
        }),
{
    reveal_strlit("request_id");
    reveal_strlit("source_uri");
    reveal_strlit("index_name");
    reveal_strlit("stream_id");
    reveal_strlit("reason");
    assert("request_id"@.len() == 10);
    assert("source_uri"@.len() == 10);
    assert("index_name"@.len() == 10);
    assert("stream_id"@.len() == 9);
    assert("reason"@.len() == 6);
    assert("request_id"@[0] == 'r' && "source_uri"@[0] == 's');
    assert("request_id"@[0] == 'r' && "index_name"@[0] == 'i');
    assert("source_uri"@[0] == 's' && "index_name"@[0] == 'i');
    let events = opening_events(request_id, stream_id, source_uri, index_name, wanted, available);
    let a = events[0].1->Object_0;
    crate::json::field_is_found(a, 0);
    crate::json::field_is_found(a, 1);
    crate::json::field_is_found(a, 2);
    if wanted && !available {
        let b = events[1].1->Object_0;
        crate::json::field_is_found(b, 1);
        crate::json::field_is_found(b, 2);
    }
}

/// What a run spent is told number by number.
pub proof fn spending_of_a_run_is_told(t: TokenMetrics)
    ensures
        ({
            let told = spent_json(t);
            &&& told.unsigned_at("prompt_tokens"@) == Some(t.prompt_tokens as u64)
            &&& told.unsigned_at("completion_tokens"@) == Some(t.completion_tokens as u64)
            &&& told.unsigned_at("thinking_tokens"@) == Some(t.thinking_tokens as u64)
            &&& told.unsigned_at("total_tokens"@) == Some(t.total_tokens as u64)
            &&& told.unsigned_at("inference_latency_ms"@) == Some(t.inference_latency_ms)
            &&& told.unsigned_at("chunks_analyzed"@) == Some(t.chunks_analyzed as u64)
        }),
{
    reveal_strlit("prompt_tokens");
    reveal_strlit("completion_tokens");
    reveal_strlit("thinking_tokens");
    reveal_strlit("total_tokens");
    reveal_strlit("inference_latency_ms");
    reveal_strlit("chunks_analyzed");
    assert("prompt_tokens"@.len() == 13);
    assert("completion_tokens"@.len() == 17);
    assert("thinking_tokens"@.len() == 15);
    assert("total_tokens"@.len() == 12);
    assert("inference_latency_ms"@.len() == 20);
    assert("chunks_analyzed"@.len() == 15);
    assert("thinking_tokens"@[0] == 't' && "chunks_analyzed"@[0] == 'c');
    let fields = spent_json(t)->Object_0;
    crate::json::field_is_found(fields, 0);
    crate::json::field_is_found(fields, 1);
    crate::json::field_is_found(fields, 2);
    crate::json::field_is_found(fields, 3);
    crate::json::field_is_found(fields, 4);
    crate::json::field_is_found(fields, 5);
}

/// A run is refused exactly if it is not the caller's or is over, if its request
/// does not keep its bounds, or if its source is refused.
pub proof fn reasoning_is_refused_for_cause(
    request_id: Seq<char>,
    run_id: Seq<char>,
    snapshot: Option<SnapshotView>,
    principal: Seq<char>,
    prefix: Seq<char>,
    payload: RealtimeReasonRequest,
    mode: Result<String, String>,
    model: Result<String, String>,
    source: Result<SourceLookup, String>,
)
    ensures
        reason_refusal(
            request_id,
            run_id,
            snapshot,
            principal,
            prefix,
            payload,
            mode,
            model,
            source,
        ) is None <==> {
            &&& crate::ids::valid_run_id(run_id)
            &&& snapshot is Some && !snapshot->0.deleted && snapshot->0.principal_key == principal
            &&& !snapshot->0.terminal
            &&& reason_problem(payload, mode, model, source) is None
            &&& source matches Ok(lookup) && crate::files::source_refusal(
                request_id,
                REASON_CONTEXT@,
                lookup,
                principal,
                prefix,
            ) is None
        },
{
}

/// A source that is adapted to is read at its own rate, within bounds, or at
/// twenty-four frames a second where that is unknown.
pub proof fn rates_are_adapted(policy: SamplingPolicy, source_fps: Option<Single>, fixed_fps: Single)
    ensures
        policy == SamplingPolicy::Fixed ==> reason_rate(policy, source_fps, fixed_fps) == fixed_fps,
        policy == SamplingPolicy::SourceFpsAdaptive && source_fps is None ==> reason_rate(
            policy,
            source_fps,
            fixed_fps,
        ) == single(0x41c0_0000),
        policy == SamplingPolicy::SourceFpsAdaptive && source_fps is Some ==> reason_rate(
            policy,
            source_fps,
            fixed_fps,
        ) == rate_within_bounds(source_fps->0),
{
}

/// A clip may last more than nothing and up to a minute.
pub proof fn clips_last_up_to_a_minute(s: Single)
    ensures
        clip_length(s) <==> s.finite() && 0 < s.rank() <= single(0x4270_0000).rank(),
{
    assert(single(0).rank() == 0);
}

} // verus!
