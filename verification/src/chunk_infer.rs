//! The inference over one chunk, step by step: what to show a model and ask it,
//! and what each outcome makes of the chunk's result.

use vstd::prelude::*;

use crate::audio::{
    all_grounded, audio_moments, best_overlay, deduplicate_moments, ground_provider_moments,
    heard_account, heard_moments, local_audio_overlay, local_audio_prompt_context, local_overlay,
    merged, overlay_from_moments, span, AudioAnalysis, ByTimeAndKind,
};
use crate::chunk_result::{
    untried, AudioFailureReason, ChunkSemanticResult, ChunkView, FeedbackAudioEvidence, HeardView,
    LocalAudioTelemetry, MediaView, SemanticMediaEvidence,
};
use crate::chunks::{chosen, index_views, select_semantic_images, ClipSpec, SemanticMediaMode};
use crate::codec::{base64_encode, base64_of, encodable};
use crate::digits::{decimal, push_decimal};
use crate::ieee::Single;
use crate::json::{
    parse_json, payload_of, payload_or_raw, payload_text, read_json, written_json,
};
use crate::models::TokenUsage;
use crate::overlay::{
    later, overlay_result, parse_semantic_overlay, MomentView, OverlayView, SemanticMoment,
    SemanticOverlay,
};
use crate::sort::{sorted, views};
use crate::text::{chars_of, clipped, with_tail, opt_text, owned, trim, trimmed, truncate_context};

verus! {

/// The schema of an overlay.
pub const SEMANTIC_OVERLAY_SCHEMA: &'static str = "{
  \"type\": \"object\",
  \"properties\": {
    \"event_type\": { \"type\": \"string\" },
    \"object_label\": { \"type\": \"string\" },
    \"summary\": { \"type\": \"string\" },
    \"description\": { \"type\": \"string\" },
    \"confidence\": { \"type\": \"number\", \"minimum\": 0, \"maximum\": 1 }
  },
  \"required\": [\"event_type\", \"object_label\", \"summary\", \"description\", \"confidence\"]
}";

/// The schema of a list of moments.
pub const MULTIMODAL_OVERLAY_SCHEMA: &'static str = "{
  \"type\": \"object\",
  \"properties\": {
    \"moments\": {
      \"type\": \"array\",
      \"items\": {
        \"type\": \"object\",
        \"properties\": {
          \"start_offset_ms\": { \"type\": \"integer\" },
          \"end_offset_ms\": { \"type\": \"integer\" },
          \"modalities\": {
            \"type\": \"array\",
            \"items\": { \"type\": \"string\" }
          },
          \"kind\": { \"type\": \"string\" },
          \"description\": { \"type\": \"string\" },
          \"intent\": { \"type\": \"string\" },
          \"audio_visual_relation\": { \"type\": \"string\" },
          \"confidence\": { \"type\": \"number\" }
        },
        \"required\": [\"start_offset_ms\", \"end_offset_ms\", \"modalities\", \"kind\", \"description\", \"confidence\"]
      }
    }
  },
  \"required\": [\"moments\"]
}";

/// What a model is told about sound.
pub const MULTIMODAL_INSTRUCTION: &'static str = "\nTreat sound as evidence, not as a transcript request. When local transcript evidence is present, it is the only allowed source for spoken words. Never invent, extend, or paraphrase speech beyond that evidence. Call the source \"the speaker\" unless identity is directly visible and stated. Do not classify speech as character dialogue, commentary, narration, or UI audio without direct evidence. An audio-only claim must overlap a matching local audio observation. If no local observation supports it, omit it. Analyze non-speech sounds and their relationship to visible actions only when the evidence overlaps in time. Return at most 32 moments. Moment offsets are milliseconds from the beginning of this clip. Each modalities array may contain only audio and video. Each kind must be exactly speech, sound_effect, music, ambient, interaction, mechanical, or other. Confidence must be between 0 and 1. Use positive-duration intervals inside the clip. Do not attribute a moment to an original audio track because input tracks may have been mixed.";

/// How many tokens an overlay may take.
pub const DEFAULT_SEMANTIC_MAX_TOKENS: u32 = 320;

/// How many tokens a list of moments may take.
pub const MULTIMODAL_MAX_TOKENS: u32 = 1_024;

/// How many tokens an answer to a schema of the caller's own may take.
pub const CUSTOM_SCHEMA_MAX_TOKENS: u32 = 1_024;

// ---------------------------------------------------------------- beginning
/// A chunk that fell back, and why.
pub open spec fn fallen_back(c: ChunkView, error: Seq<char>) -> ChunkView {
    ChunkView { used_fallback: true, error: Some(error), ..c }
}

/// Inference was begun.
pub open spec fn begun() -> ChunkView {
    ChunkView { attempted: true, ..untried() }
}

/// How the inference over a chunk begins.
#[derive(Debug)]
pub enum ChunkStart {
    /// It is over already.
    Finished(ChunkSemanticResult),
    /// The frames at some positions are shown.
    Frames(Vec<usize>),
    /// A clip is shown.
    Clip,
}

/// Takes note of a failure; the chunk falls back.
fn fall_back(result: &mut ChunkSemanticResult, error: String)
    ensures
        final(result)@ == fallen_back(old(result)@, error@),
{
    result.used_fallback = true;
    result.error = Some(error);
}

/// An attempt, with nothing known yet.
pub fn begin_result() -> (r: ChunkSemanticResult)
    ensures
        r@ == begun(),
{
    let mut r = ChunkSemanticResult::default();
    r.attempted = true;
    r
}

/// How the inference over a chunk begins: not at all without a model; with a
/// clip where there is one; else with the frames that stand for the chunk, and
/// where there are none it is over.
pub fn begin_chunk(
    semantic_available: bool,
    has_clip: bool,
    frame_count: usize,
    frames_per_chunk: usize,
) -> (r: ChunkStart)
    ensures
        ({
            let picked = chosen(frame_count as int, frames_per_chunk as int);
            match r {
                ChunkStart::Finished(c) => if !semantic_available {
                    c@ == untried()
                } else {
                    !has_clip && picked.len() == 0 && c@ == fallen_back(
                        begun(),
                        "chunk_has_no_jpeg_frames"@,
                    )
                },
                ChunkStart::Frames(p) => semantic_available && !has_clip && picked.len() > 0
                    && index_views(p@) == picked && (forall|i: int|
                    0 <= i < p@.len() ==> #[trigger] p@[i] < frame_count),
                ChunkStart::Clip => semantic_available && has_clip,
            }
        }),
{
    if !semantic_available {
        return ChunkStart::Finished(ChunkSemanticResult::default());
    }
    if has_clip {
        return ChunkStart::Clip;
    }
    let picked = select_semantic_images(frame_count, frames_per_chunk);
    if picked.is_empty() {
        let mut result = begin_result();
        fall_back(&mut result, owned("chunk_has_no_jpeg_frames"));
        ChunkStart::Finished(result)
    } else {
        ChunkStart::Frames(picked)
    }
}

// ---------------------------------------------------------------- clip
/// A clip as it was cut from its source.
#[derive(Debug)]
pub struct ExtractedClip {
    pub bytes: Vec<u8>,
    pub audio_streams: u16,
    pub audio_channels: u16,
    pub audio_mixed: bool,
    pub extraction_ms: u64,
}

/// The evidence that a clip is: where it lies in its source, and its sound
/// where the mode has any.
pub open spec fn evidence_of(spec_: ClipSpec, clip: ExtractedClip) -> MediaView {
    let sound = spec_.mode == SemanticMediaMode::AudioVideo;
    MediaView {
        bytes: clip.bytes@,
        media_type: "video/mp4"@,
        mode: spec_.mode,
        source_start_ms: spec_.source_start_ms,
        source_end_ms: later(spec_.source_start_ms, spec_.duration_ms),
        audio_streams: if sound {
            clip.audio_streams
        } else {
            0
        },
        audio_channels: if sound {
            clip.audio_channels
        } else {
            0
        },
        audio_mixed: sound && clip.audio_mixed,
        extraction_ms: clip.extraction_ms,
        resolution: spec_.resolution,
        persist_evidence: spec_.persist_evidence,
    }
}

/// The evidence that a clip is.
pub fn media_evidence(clip_spec: &ClipSpec, clip: ExtractedClip) -> (r: SemanticMediaEvidence)
    ensures
        r@ == evidence_of(*clip_spec, clip),
{
    let sound = clip_spec.mode == SemanticMediaMode::AudioVideo;
    SemanticMediaEvidence {
        bytes: clip.bytes,
        media_type: "video/mp4",
        mode: clip_spec.mode,
        source_start_ms: clip_spec.source_start_ms,
        source_end_ms: clip_spec.source_start_ms.saturating_add(clip_spec.duration_ms),
        audio_streams: if sound {
            clip.audio_streams
        } else {
            0
        },
        audio_channels: if sound {
            clip.audio_channels
        } else {
            0
        },
        audio_mixed: sound && clip.audio_mixed,
        extraction_ms: clip.extraction_ms,
        resolution: clip_spec.resolution,
        persist_evidence: clip_spec.persist_evidence,
    }
}

/// The result of a chunk whose clip could not be cut, because the source
/// refused or because the worker broke down.
pub fn extraction_failed(error: &str, worker_broke: bool) -> (r: ChunkSemanticResult)
    ensures
        r@ == fallen_back(
            begun(),
            (if worker_broke {
                "media_extraction_join_error:"@
            } else {
                "media_extraction_failed:"@
            }) + error@,
        ),
{
    let mut result = begin_result();
    let prefix = if worker_broke {
        "media_extraction_join_error:"
    } else {
        "media_extraction_failed:"
    };
    fall_back(&mut result, with_tail(prefix, error));
    result
}

// ---------------------------------------------------------------- sound
/// What came back from the audio front end.
#[derive(Debug)]
pub enum AudioOutcome {
    /// What was heard.
    Heard(AudioAnalysis),
    /// The front end refused, and why.
    Refused(AudioFailureReason, String),
    /// The worker broke down.
    Broke(String),
}

/// The call to the audio front end: what was handed to it and how long it took.
#[derive(Clone, Copy, Debug, PartialEq, Eq, Structural)]
pub struct AudioCall {
    pub wav_extraction_ms: u64,
    pub wav_bytes: u64,
    pub requested_duration_ms: u64,
    pub round_trip_ms: u64,
}

/// Where the sound of a chunk ends: with its clip, or with its last frame.
pub open spec fn sound_end(media: Option<MediaView>, pts_start_ms: u64, pts_end_ms: u64) -> u64 {
    match media {
        Some(m) => m.source_end_ms,
        None => if pts_end_ms < pts_start_ms {
            pts_start_ms
        } else {
            pts_end_ms
        },
    }
}

/// The result with what the audio front end brought.
pub open spec fn with_audio(
    c: ChunkView,
    call: AudioCall,
    outcome: AudioOutcome,
    pts_start_ms: u64,
    pts_end_ms: u64,
) -> ChunkView {
    let telemetry = LocalAudioTelemetry {
        wav_extraction_ms: call.wav_extraction_ms,
        wav_bytes: call.wav_bytes,
        requested_duration_ms: call.requested_duration_ms,
        round_trip_ms: call.round_trip_ms,
        ..c.local_audio_telemetry
    };
    match outcome {
        AudioOutcome::Heard(a) => ChunkView {
            moments: c.moments + heard_moments(
                a@.observations,
                pts_start_ms,
                span(pts_start_ms, sound_end(c.media, pts_start_ms, pts_end_ms)),
            ),
            local_audio: Some(a@),
            local_audio_telemetry: telemetry,
            ..c
        },
        AudioOutcome::Refused(reason, error) => ChunkView {
            local_audio_error: Some(error@),
            local_audio_telemetry: LocalAudioTelemetry {
                failure_reason: Some(reason),
                ..telemetry
            },
            ..c
        },
        AudioOutcome::Broke(error) => ChunkView {
            local_audio_error: Some("audio_sidecar_join_error:"@ + error@),
            local_audio_telemetry: LocalAudioTelemetry {
                failure_reason: Some(AudioFailureReason::Inference),
                ..telemetry
            },
            ..c
        },
    }
}

/// Appends moments to moments.
fn extend_moments(list: &mut Vec<SemanticMoment>, more: Vec<SemanticMoment>)
    ensures
        views(final(list)@) == views(old(list)@) + views(more@),
{
    let ghost a = views(list@);
    let ghost b = views(more@);
    let mut more = more;
    list.append(&mut more);
    assert(views(list@) =~= a + b);
}

/// Takes in what the audio front end brought.
pub fn apply_audio(
    result: &mut ChunkSemanticResult,
    call: AudioCall,
    outcome: AudioOutcome,
    pts_start_ms: u64,
    pts_end_ms: u64,
)
    ensures
        final(result)@ == with_audio(old(result)@, call, outcome, pts_start_ms, pts_end_ms),
{
    let end: u64 = match &result.media {
        Some(m) => m.source_end_ms,
        None => if pts_end_ms < pts_start_ms {
            pts_start_ms
        } else {
            pts_end_ms
        },
    };
    result.local_audio_telemetry = LocalAudioTelemetry {
        wav_extraction_ms: call.wav_extraction_ms,
        wav_bytes: call.wav_bytes,
        requested_duration_ms: call.requested_duration_ms,
        round_trip_ms: call.round_trip_ms,
        failure_reason: result.local_audio_telemetry.failure_reason,
        tts_attempted: result.local_audio_telemetry.tts_attempted,
        tts_round_trip_ms: result.local_audio_telemetry.tts_round_trip_ms,
        tts_failure_reason: result.local_audio_telemetry.tts_failure_reason,
    };
    match outcome {
        AudioOutcome::Heard(analysis) => {
            extend_moments(&mut result.moments, audio_moments(&analysis, pts_start_ms, end));
            result.local_audio = Some(analysis);
        },
        AudioOutcome::Refused(reason, error) => {
            result.local_audio_telemetry.failure_reason = Some(reason);
            result.local_audio_error = Some(error);
        },
        AudioOutcome::Broke(error) => {
            result.local_audio_telemetry.failure_reason = Some(AudioFailureReason::Inference);
            result.local_audio_error = Some(
                with_tail("audio_sidecar_join_error:", error.as_str()),
            );
        },
    }
}

// ---------------------------------------------------------------- request
/// The index of the last frame of a chunk.
pub open spec fn last_frame(first: u64, count: int) -> nat {
    let end = if first + count > u64::MAX {
        u64::MAX as int
    } else {
        first + count
    };
    if end < 1 {
        0
    } else {
        (end - 1) as nat
    }
}

/// What is asked of a model about a chunk: the caller's words, what it is told
/// about sound, what was heard, and where the chunk lies.
pub open spec fn prompt_of(
    semantic_prompt: Seq<char>,
    mode: Option<SemanticMediaMode>,
    heard: Option<HeardView>,
    frame_start_index: u64,
    frame_count: int,
    pts_start_ms: u64,
    pts_end_ms: u64,
) -> Seq<char> {
    let instruction = if mode == Some(SemanticMediaMode::AudioVideo) {
        MULTIMODAL_INSTRUCTION@
    } else {
        Seq::empty()
    };
    let account = match heard {
        Some(h) => heard_account(h.observations),
        None => Seq::empty(),
    };
    let head = semantic_prompt + instruction + account;
    let frames = if mode is Some {
        Seq::empty()
    } else {
        "\nchunk_frame_start="@ + decimal(frame_start_index as nat) + "\nchunk_frame_end="@ + decimal(
            last_frame(frame_start_index, frame_count),
        )
    };
    head + frames + "\nchunk_pts_start_ms="@ + decimal(pts_start_ms as nat)
        + "\nchunk_pts_end_ms="@ + decimal(pts_end_ms as nat)
}

/// What is asked of a model about a chunk.
pub fn chunk_prompt(
    semantic_prompt: &str,
    mode: Option<SemanticMediaMode>,
    heard: Option<&AudioAnalysis>,
    frame_start_index: u64,
    frame_count: usize,
    pts_start_ms: u64,
    pts_end_ms: u64,
) -> (r: String)
    ensures
        r@ == prompt_of(
            semantic_prompt@,
            mode,
            match heard {
                Some(a) => Some(a@),
                None => None,
            },
            frame_start_index,
            frame_count as int,
            pts_start_ms,
            pts_end_ms,
        ),
{
    let mut out = owned(semantic_prompt);
    let with_sound = match mode {
        Some(SemanticMediaMode::AudioVideo) => true,
        _ => false,
    };
    if with_sound {
        out.push_str(MULTIMODAL_INSTRUCTION);
    } else {
        assert(semantic_prompt@ + Seq::<char>::empty() =~= semantic_prompt@);
    }
    let ghost a = out@;
    match heard {
        Some(analysis) => {
            out.push_str(local_audio_prompt_context(analysis).as_str());
        },
        None => {
            assert(a + Seq::<char>::empty() =~= a);
        },
    }
    let ghost b = out@;
    if mode.is_none() {
        let end: u64 = frame_start_index.saturating_add(frame_count as u64).saturating_sub(1);
        out.push_str("\nchunk_frame_start=");
        push_decimal(&mut out, frame_start_index);
        out.push_str("\nchunk_frame_end=");
        push_decimal(&mut out, end);
        assert(out@ =~= b + ("\nchunk_frame_start="@ + decimal(frame_start_index as nat)
            + "\nchunk_frame_end="@ + decimal(last_frame(frame_start_index, frame_count as int))));
    } else {
        assert(b + Seq::<char>::empty() =~= b);
    }
    out.push_str("\nchunk_pts_start_ms=");
    push_decimal(&mut out, pts_start_ms);
    out.push_str("\nchunk_pts_end_ms=");
    push_decimal(&mut out, pts_end_ms);
    out
}

/// A picture for a model.
#[derive(Debug)]
pub struct InferenceImage {
    pub media_type: &'static str,
    pub data_base64: String,
}

/// A decoded frame.
#[derive(Debug)]
pub struct DecodedJpegFrame {
    pub frame_index: u64,
    pub jpeg_bytes: Vec<u8>,
}

/// What some pictures are: the kind of each, and its bytes in base64.
pub open spec fn image_texts(s: Seq<InferenceImage>) -> Seq<(Seq<char>, Seq<char>)> {
    s.map_values(|i: InferenceImage| (i.media_type@, i.data_base64@))
}

/// What a frame is as a picture.
pub open spec fn jpeg_text(bytes: Seq<u8>) -> (Seq<char>, Seq<char>) {
    ("image/jpeg"@, base64_of(bytes))
}

/// The texts of the frames at some positions.
pub open spec fn frame_texts(frames: Seq<DecodedJpegFrame>, picked: Seq<usize>) -> Seq<
    (Seq<char>, Seq<char>),
> {
    picked.map_values(|p: usize| jpeg_text(frames[p as int].jpeg_bytes@))
}

/// The pictures that go with a question: the frame of the chunk before, where
/// it goes along, then the frames that stand for this one.
pub fn chunk_images(
    frames: &Vec<DecodedJpegFrame>,
    picked: &Vec<usize>,
    prev_jpeg: Option<&Vec<u8>>,
) -> (r: Vec<InferenceImage>)
    requires
        forall|i: int| 0 <= i < picked@.len() ==> #[trigger] picked@[i] < frames@.len(),
        forall|i: int| 0 <= i < frames@.len() ==> encodable((#[trigger] frames@[i]).jpeg_bytes@),
        prev_jpeg is Some ==> encodable(prev_jpeg->0@),
    ensures
        image_texts(r@) == (match prev_jpeg {
            Some(b) => seq![jpeg_text(b@)],
            None => Seq::empty(),
        }) + frame_texts(frames@, picked@),
{
    let mut out: Vec<InferenceImage> = Vec::new();
    match prev_jpeg {
        Some(b) => {
            out.push(
                InferenceImage { media_type: "image/jpeg", data_base64: base64_encode(b.as_slice()) },
            );
            assert(image_texts(out@) =~= seq![jpeg_text(b@)]);
        },
        None => {
            assert(image_texts(out@) =~= Seq::empty());
        },
    }
    let ghost head = image_texts(out@);
    let ghost all = frame_texts(frames@, picked@);
    let mut i: usize = 0;
    assert(head + all.take(0) =~= head);
    while i < picked.len()
        invariant
            i <= picked@.len(),
            all == frame_texts(frames@, picked@),
            image_texts(out@) == head + all.take(i as int),
            forall|k: int| 0 <= k < picked@.len() ==> #[trigger] picked@[k] < frames@.len(),
            forall|k: int| 0 <= k < frames@.len() ==> encodable((#[trigger] frames@[k]).jpeg_bytes@),
        decreases picked@.len() - i,
    {
        let p: usize = picked[i];
        let ghost before = image_texts(out@);
        out.push(
            InferenceImage {
                media_type: "image/jpeg",
                data_base64: base64_encode(frames[p].jpeg_bytes.as_slice()),
            },
        );
        i += 1;
        assert(image_texts(out@) =~= before.push(jpeg_text(frames@[p as int].jpeg_bytes@)));
        assert(head + all.take(i as int) =~= before.push(jpeg_text(frames@[p as int].jpeg_bytes@)));
    }
    assert(all.take(i as int) =~= all);
    out
}

/// How a question about a chunk is put.
#[derive(Debug)]
pub struct ChunkRequest {
    pub max_tokens: u32,
    pub temperature: Single,
    pub timeout_ms: u64,
    pub allow_fallback: bool,
    pub guided_json: String,
    pub second_pass_guided_json: Option<String>,
    pub schedule_key: String,
    pub deadline_ms: u64,
    pub max_wait_ms: u64,
}

/// What a question about a chunk is.
pub ghost struct ChunkRequestView {
    pub max_tokens: u32,
    pub temperature: Single,
    pub timeout_ms: u64,
    pub allow_fallback: bool,
    pub guided_json: Seq<char>,
    pub second_pass_guided_json: Option<Seq<char>>,
    pub schedule_key: Seq<char>,
    pub deadline_ms: u64,
    pub max_wait_ms: u64,
}

impl View for ChunkRequest {
    type V = ChunkRequestView;

    open spec fn view(&self) -> ChunkRequestView {
        ChunkRequestView {
            max_tokens: self.max_tokens,
            temperature: self.temperature,
            timeout_ms: self.timeout_ms,
            allow_fallback: self.allow_fallback,
            guided_json: self.guided_json@,
            second_pass_guided_json: opt_text(self.second_pass_guided_json),
            schedule_key: self.schedule_key@,
            deadline_ms: self.deadline_ms,
            max_wait_ms: self.max_wait_ms,
        }
    }
}

/// The schema of the library's own for an answer.
pub open spec fn own_schema(multimodal: bool) -> Seq<char> {
    if multimodal {
        MULTIMODAL_OVERLAY_SCHEMA@
    } else {
        SEMANTIC_OVERLAY_SCHEMA@
    }
}

/// How a question about a chunk is put. A schema of the caller's own is used in
/// the first pass alone; the library's own is used in both.
pub open spec fn request_of(
    custom_schema: Option<Seq<char>>,
    multimodal: bool,
    timeout_ms: u64,
    frame_start_index: u64,
) -> ChunkRequestView {
    ChunkRequestView {
        max_tokens: if custom_schema is Some {
            CUSTOM_SCHEMA_MAX_TOKENS
        } else if multimodal {
            MULTIMODAL_MAX_TOKENS
        } else {
            DEFAULT_SEMANTIC_MAX_TOKENS
        },
        temperature: Single { bits: 0 },
        timeout_ms,
        allow_fallback: true,
        guided_json: match custom_schema {
            Some(s) => s,
            None => own_schema(multimodal),
        },
        second_pass_guided_json: match custom_schema {
            Some(_) => None,
            None => Some(own_schema(multimodal)),
        },
        schedule_key: "offline:"@ + decimal(frame_start_index as nat),
        deadline_ms: if timeout_ms * 2 > u64::MAX {
            u64::MAX
        } else {
            (timeout_ms * 2) as u64
        },
        max_wait_ms: if timeout_ms < 1_000 {
            timeout_ms
        } else {
            1_000
        },
    }
}

/// How a question about a chunk is put.
pub fn chunk_request(
    custom_schema: Option<&str>,
    multimodal: bool,
    timeout_ms: u64,
    frame_start_index: u64,
) -> (r: ChunkRequest)
    ensures
        r@ == request_of(
            crate::text::opt_str(custom_schema),
            multimodal,
            timeout_ms,
            frame_start_index,
        ),
{
    let own: &'static str = if multimodal {
        MULTIMODAL_OVERLAY_SCHEMA
    } else {
        SEMANTIC_OVERLAY_SCHEMA
    };
    let max_tokens: u32 = if custom_schema.is_some() {
        CUSTOM_SCHEMA_MAX_TOKENS
    } else if multimodal {
        MULTIMODAL_MAX_TOKENS
    } else {
        DEFAULT_SEMANTIC_MAX_TOKENS
    };
    let (guided_json, second_pass_guided_json) = match custom_schema {
        Some(s) => (owned(s), None),
        None => (owned(own), Some(owned(own))),
    };
    let mut schedule_key = owned("offline:");
    push_decimal(&mut schedule_key, frame_start_index);
    ChunkRequest {
        max_tokens,
        temperature: Single { bits: 0 },
        timeout_ms,
        allow_fallback: true,
        guided_json,
        second_pass_guided_json,
        schedule_key,
        deadline_ms: timeout_ms.saturating_add(timeout_ms),
        max_wait_ms: if timeout_ms < 1_000 {
            timeout_ms
        } else {
            1_000
        },
    }
}

// ---------------------------------------------------------------- answer
/// Why a provider gave no answer.
#[derive(Debug)]
pub enum ProviderError {
    UnsupportedModel(String),
    HttpStatus(u16),
    Transport(String),
    InvalidResponse(String),
    Saturated,
    DeadlineMissed,
    RequestBudget,
}

/// How the log names why a provider gave no answer.
pub open spec fn provider_error_name(e: ProviderError) -> Seq<char> {
    match e {
        ProviderError::UnsupportedModel(_) => "unsupported_model"@,
        ProviderError::HttpStatus(code) => "http_status_"@ + decimal(code as nat),
        ProviderError::Transport(_) => "transport_error"@,
        ProviderError::InvalidResponse(_) => "invalid_response"@,
        ProviderError::Saturated => "provider_saturated"@,
        ProviderError::DeadlineMissed => "deadline_missed"@,
        ProviderError::RequestBudget => "request_budget_exceeded"@,
    }
}

impl ProviderError {
    /// How the log names why a provider gave no answer.
    pub fn name(&self) -> (r: String)
        ensures
            r@ == provider_error_name(*self),
    {
        match self {
            ProviderError::UnsupportedModel(_) => owned("unsupported_model"),
            ProviderError::HttpStatus(code) => {
                let mut out = owned("http_status_");
                push_decimal(&mut out, *code as u64);
                out
            },
            ProviderError::Transport(_) => owned("transport_error"),
            ProviderError::InvalidResponse(_) => owned("invalid_response"),
            ProviderError::Saturated => owned("provider_saturated"),
            ProviderError::DeadlineMissed => owned("deadline_missed"),
            ProviderError::RequestBudget => owned("request_budget_exceeded"),
        }
    }
}

/// An answer of a provider.
#[derive(Debug)]
pub struct InferenceAnswer {
    pub provider: String,
    pub model: String,
    pub fallback_used: bool,
    pub output_text: String,
    pub finish_reason: Option<String>,
    pub usage: TokenUsage,
    pub inference_latency_ms: u64,
}

/// What came of the call to a provider.
#[derive(Debug)]
pub enum ProviderOutcome {
    Answered(InferenceAnswer),
    Failed(ProviderError),
    /// The worker broke down.
    Broke(String),
    /// There was no free place for the call.
    NoPermit,
}

/// The result with the head of an answer: who gave it and what it took.
pub open spec fn with_head(c: ChunkView, a: InferenceAnswer) -> ChunkView {
    ChunkView {
        provider: Some(a.provider@),
        provider_fallback_used: a.fallback_used,
        finish_reason: opt_text(a.finish_reason),
        response_chars: Some(a.output_text@.len() as usize),
        usage: a.usage,
        inference_latency_ms: a.inference_latency_ms,
        ..c
    }
}

/// The window that an answer's moments are read against, where the clip has
/// sound.
pub open spec fn window_of(media: Option<MediaView>) -> Option<(u64, u64)> {
    match media {
        Some(m) => if m.mode == SemanticMediaMode::AudioVideo {
            Some((m.source_start_ms, span(m.source_start_ms, m.source_end_ms)))
        } else {
            None
        },
        None => None,
    }
}

/// The result with what an answer tells: its moments held to what was heard
/// and merged with those heard, and the overlay, which what was heard decides
/// where something listened.
pub open spec fn with_overlay(
    c: ChunkView,
    overlay: OverlayView,
    moments: Seq<MomentView>,
    fallback_used: bool,
) -> ChunkView {
    let held = match c.local_audio {
        Some(h) => all_grounded(moments, h.observations),
        None => moments,
    };
    let all = merged(sorted::<SemanticMoment, ByTimeAndKind>(c.moments + held));
    ChunkView {
        moments: all,
        overlay: if c.local_audio is Some {
            best_overlay(all)
        } else {
            Some(overlay)
        },
        used_fallback: fallback_used,
        ..c
    }
}

/// The result with what became of the call to a provider. Against a schema of
/// the caller's own the answer is kept as it is, as JSON where it is JSON.
pub open spec fn with_outcome(c: ChunkView, outcome: ProviderOutcome, custom_schema: bool) -> ChunkView {
    match outcome {
        ProviderOutcome::NoPermit => fallen_back(c, "provider_saturated"@),
        ProviderOutcome::Failed(e) => fallen_back(c, provider_error_name(e)),
        ProviderOutcome::Broke(e) => fallen_back(c, "join_error:"@ + e@),
        ProviderOutcome::Answered(a) => {
            let h = with_head(c, a);
            if custom_schema {
                ChunkView {
                    raw_output: Some(payload_of(read_json(a.output_text@), a.output_text@)),
                    raw_text: Some(
                        written_json(payload_of(read_json(a.output_text@), a.output_text@)),
                    ),
                    overlay: None,
                    ..h
                }
            } else {
                match overlay_result(a.output_text@, window_of(c.media)) {
                    Ok((overlay, moments)) => with_overlay(h, overlay, moments, a.fallback_used),
                    Err(e) => fallen_back(h, "semantic_parse_failed:"@ + e.name()),
                }
            }
        },
    }
}

/// Takes in what an answer tells.
pub fn apply_overlay(
    result: &mut ChunkSemanticResult,
    overlay: SemanticOverlay,
    moments: Vec<SemanticMoment>,
    fallback_used: bool,
)
    ensures
        final(result)@ == with_overlay(old(result)@, overlay@, views(moments@), fallback_used),
{
    let held = match &result.local_audio {
        Some(a) => ground_provider_moments(moments, Some(a)),
        None => moments,
    };
    extend_moments(&mut result.moments, held);
    deduplicate_moments(&mut result.moments);
    if result.local_audio.is_some() {
        result.overlay = overlay_from_moments(&result.moments);
    } else {
        result.overlay = Some(overlay);
    }
    result.used_fallback = fallback_used;
}

/// An answer that can be read as an overlay.
pub open spec fn read_as_overlay(c: ChunkView, outcome: ProviderOutcome, custom_schema: bool) -> bool {
    match outcome {
        ProviderOutcome::Answered(a) => !custom_schema && overlay_result(
            a.output_text@,
            window_of(c.media),
        ) is Ok,
        _ => false,
    }
}

/// Takes in what became of the call to a provider, and tells whether an overlay
/// was read.
pub fn apply_outcome(
    result: &mut ChunkSemanticResult,
    outcome: ProviderOutcome,
    custom_schema: bool,
) -> (r: bool)
    ensures
        final(result)@ == with_outcome(old(result)@, outcome, custom_schema),
        r == read_as_overlay(old(result)@, outcome, custom_schema),
{
    let answer = match outcome {
        ProviderOutcome::NoPermit => {
            fall_back(result, owned("provider_saturated"));
            return false;
        },
        ProviderOutcome::Failed(e) => {
            fall_back(result, e.name());
            return false;
        },
        ProviderOutcome::Broke(e) => {
            fall_back(result, with_tail("join_error:", e.as_str()));
            return false;
        },
        ProviderOutcome::Answered(a) => a,
    };
    let window = match &result.media {
        Some(m) => match m.mode {
            SemanticMediaMode::AudioVideo => Some(
                (m.source_start_ms, m.source_end_ms.saturating_sub(m.source_start_ms)),
            ),
            _ => None,
        },
        None => None,
    };
    let output = answer.output_text;
    result.provider = Some(answer.provider);
    result.provider_fallback_used = answer.fallback_used;
    result.finish_reason = answer.finish_reason;
    result.response_chars = Some(chars_of(output.as_str()).len());
    result.usage = answer.usage;
    result.inference_latency_ms = answer.inference_latency_ms;
    if custom_schema {
        result.raw_output = Some(payload_or_raw(parse_json(output.as_str()), output.as_str()));
        result.raw_text = Some(payload_text(output.as_str()));
        result.overlay = None;
        return false;
    }
    match parse_semantic_overlay(output.as_str(), window) {
        Ok((overlay, moments)) => {
            apply_overlay(result, overlay, moments, answer.fallback_used);
            true
        },
        Err(e) => {
            fall_back(result, with_tail("semantic_parse_failed:", e.as_str()));
            false
        },
    }
}

/// The result of a chunk that no provider was there for: what was heard is all
/// there is.
pub open spec fn with_local_audio(c: ChunkView) -> ChunkView {
    ChunkView {
        provider: Some("local_audio"@),
        overlay: Some(local_overlay(c.moments)),
        ..c
    }
}

/// Finishes a chunk that no provider was there for.
pub fn finish_local_audio_result(result: &mut ChunkSemanticResult)
    ensures
        final(result)@ == with_local_audio(old(result)@),
{
    result.overlay = Some(local_audio_overlay(&result.moments));
    result.provider = Some(owned("local_audio"));
}

// ---------------------------------------------------------------- feedback
/// What is to be spoken about a chunk: its description, where feedback is
/// wanted and there is one.
pub open spec fn spoken_text(c: ChunkView, voice_feedback: bool) -> Option<Seq<char>> {
    match c.overlay {
        Some(o) => if voice_feedback && trimmed(o.description).len() > 0 {
            Some(clipped(trimmed(o.description), 2_000))
        } else {
            None
        },
        None => None,
    }
}

/// What is to be spoken about a chunk.
pub fn feedback_text(result: &ChunkSemanticResult, voice_feedback: bool) -> (r: Option<String>)
    ensures
        opt_text(r) == spoken_text(result@, voice_feedback),
{
    if !voice_feedback {
        return None;
    }
    match &result.overlay {
        Some(o) => {
            let text = trim(o.description.as_str());
            if text.as_str().is_empty() {
                None
            } else {
                Some(truncate_context(text.as_str(), 2_000))
            }
        },
        None => None,
    }
}

/// What came of the call for spoken feedback.
#[derive(Debug)]
pub enum FeedbackOutcome {
    Spoken(FeedbackAudioEvidence),
    Refused(AudioFailureReason, String),
    Broke(String),
}

/// The result with what came of the call for spoken feedback.
pub open spec fn with_feedback(c: ChunkView, round_trip_ms: u64, outcome: FeedbackOutcome) -> ChunkView {
    let telemetry = LocalAudioTelemetry {
        tts_attempted: true,
        tts_round_trip_ms: round_trip_ms,
        ..c.local_audio_telemetry
    };
    match outcome {
        FeedbackOutcome::Spoken(f) => ChunkView {
            feedback_audio: Some(f@),
            local_audio_telemetry: telemetry,
            ..c
        },
        FeedbackOutcome::Refused(reason, error) => ChunkView {
            local_audio_error: Some("voice_feedback_failed:"@ + error@),
            local_audio_telemetry: LocalAudioTelemetry {
                tts_failure_reason: Some(reason),
                ..telemetry
            },
            ..c
        },
        FeedbackOutcome::Broke(error) => ChunkView {
            local_audio_error: Some("voice_feedback_join_error:"@ + error@),
            local_audio_telemetry: LocalAudioTelemetry {
                tts_failure_reason: Some(AudioFailureReason::Inference),
                ..telemetry
            },
            ..c
        },
    }
}

/// Takes in what came of the call for spoken feedback.
pub fn apply_feedback(result: &mut ChunkSemanticResult, round_trip_ms: u64, outcome: FeedbackOutcome)
    ensures
        final(result)@ == with_feedback(old(result)@, round_trip_ms, outcome),
{
    result.local_audio_telemetry.tts_attempted = true;
    result.local_audio_telemetry.tts_round_trip_ms = round_trip_ms;
    match outcome {
        FeedbackOutcome::Spoken(f) => {
            result.feedback_audio = Some(f);
        },
        FeedbackOutcome::Refused(reason, error) => {
            result.local_audio_telemetry.tts_failure_reason = Some(reason);
            result.local_audio_error = Some(with_tail("voice_feedback_failed:", error.as_str()));
        },
        FeedbackOutcome::Broke(error) => {
            result.local_audio_telemetry.tts_failure_reason = Some(AudioFailureReason::Inference);
            result.local_audio_error = Some(with_tail("voice_feedback_join_error:", error.as_str()));
        },
    }
}

/// The result of a chunk whose task broke down.
pub fn semantic_join_failure_result(error: &str) -> (r: ChunkSemanticResult)
    ensures
        r@ == fallen_back(begun(), "join_error:"@ + error@),
{
    let mut result = begin_result();
    fall_back(&mut result, with_tail("join_error:", error));
    result
}

// ---------------------------------------------------------------- laws
/// A chunk for which a provider gave no answer keeps what was known of it
/// before, says why, and counts as fallen back.
pub proof fn failures_only_mark_the_result(c: ChunkView, outcome: ProviderOutcome, custom: bool)
    requires
        !(outcome is Answered),
    ensures
        ({
            let r = with_outcome(c, outcome, custom);
            &&& r.used_fallback
            &&& r.error is Some
            &&& r == (ChunkView { used_fallback: true, error: r.error, ..c })
        }),
{
}

/// An answer to a schema of the caller's own is never read as an overlay.
pub proof fn custom_answers_have_no_overlay(c: ChunkView, a: InferenceAnswer)
    ensures
        ({
            let r = with_outcome(c, ProviderOutcome::Answered(a), true);
            &&& r.overlay is None
            &&& r.raw_output == Some(payload_of(read_json(a.output_text@), a.output_text@))
            &&& r.error == c.error
        }),
{
}

/// A model is asked with the caller's schema where there is one and with the
/// library's own elsewhere, for at most as long as the whole may take.
pub proof fn models_are_asked_within_time(
    custom_schema: Option<Seq<char>>,
    multimodal: bool,
    timeout_ms: u64,
    frame_start_index: u64,
)
    ensures
        ({
            let r = request_of(custom_schema, multimodal, timeout_ms, frame_start_index);
            &&& custom_schema matches Some(s) ==> r.guided_json == s
                && r.second_pass_guided_json is None && r.max_tokens == CUSTOM_SCHEMA_MAX_TOKENS
            &&& custom_schema is None ==> r.second_pass_guided_json == Some(r.guided_json)
            &&& custom_schema is None && multimodal ==> r.guided_json == MULTIMODAL_OVERLAY_SCHEMA@
                && r.max_tokens == MULTIMODAL_MAX_TOKENS
            &&& custom_schema is None && !multimodal ==> r.guided_json == SEMANTIC_OVERLAY_SCHEMA@
                && r.max_tokens == DEFAULT_SEMANTIC_MAX_TOKENS
            &&& r.timeout_ms == timeout_ms
            &&& r.allow_fallback
            &&& r.temperature == (Single { bits: 0 })
            &&& timeout_ms * 2 <= u64::MAX ==> r.deadline_ms == timeout_ms + timeout_ms
            &&& r.max_wait_ms <= timeout_ms && r.max_wait_ms <= 1000
            &&& r.max_wait_ms == timeout_ms || r.max_wait_ms == 1000
            &&& r.schedule_key == "offline:"@ + decimal(frame_start_index as nat)
        }),
{
}

/// The evidence of a chunk is the clip that was cut, from where it was cut to as
/// far as it lasts; sound is told of only where it was asked for.
pub proof fn evidence_spans_its_clip(spec_: ClipSpec, clip: ExtractedClip)
    ensures
        ({
            let e = evidence_of(spec_, clip);
            &&& e.bytes == clip.bytes@
            &&& e.mode == spec_.mode
            &&& e.source_start_ms == spec_.source_start_ms
            &&& spec_.source_start_ms + spec_.duration_ms <= u64::MAX ==> e.source_end_ms
                == spec_.source_start_ms + spec_.duration_ms
            &&& spec_.mode == SemanticMediaMode::AudioVideo ==> e.audio_streams
                == clip.audio_streams && e.audio_channels == clip.audio_channels && e.audio_mixed
                == clip.audio_mixed
            &&& spec_.mode != SemanticMediaMode::AudioVideo ==> e.audio_streams == 0
                && e.audio_channels == 0 && !e.audio_mixed
            &&& e.extraction_ms == clip.extraction_ms
            &&& e.persist_evidence == spec_.persist_evidence
        }),
{
}

/// What was heard is added to a chunk's moments and kept; what went wrong is
/// told, and takes nothing away.
pub proof fn sound_adds_to_the_chunk(
    c: ChunkView,
    call: AudioCall,
    outcome: AudioOutcome,
    pts_start_ms: u64,
    pts_end_ms: u64,
)
    ensures
        ({
            let after = with_audio(c, call, outcome, pts_start_ms, pts_end_ms);
            &&& c.moments.is_prefix_of(after.moments)
            &&& outcome matches AudioOutcome::Heard(a) ==> after.local_audio == Some(a@)
                && after.local_audio_error == c.local_audio_error && after.moments.skip(
                c.moments.len() as int,
            ) == heard_moments(
                a@.observations,
                pts_start_ms,
                span(pts_start_ms, sound_end(c.media, pts_start_ms, pts_end_ms)),
            )
            &&& outcome matches AudioOutcome::Refused(reason, error) ==> after.local_audio_error
                == Some(error@) && after.local_audio_telemetry.failure_reason == Some(reason)
            &&& outcome matches AudioOutcome::Broke(error) ==> after.local_audio_error == Some(
                "audio_sidecar_join_error:"@ + error@,
            ) && after.local_audio_telemetry.failure_reason == Some(AudioFailureReason::Inference)
            &&& outcome !is Heard ==> after.moments == c.moments && after.local_audio
                == c.local_audio
            &&& after.local_audio_telemetry.wav_bytes == call.wav_bytes
            &&& after.local_audio_telemetry.wav_extraction_ms == call.wav_extraction_ms
            &&& after.local_audio_telemetry.round_trip_ms == call.round_trip_ms
            &&& after.local_audio_telemetry.requested_duration_ms == call.requested_duration_ms
            &&& after.overlay == c.overlay
        }),
{
    if let AudioOutcome::Heard(a) = outcome {
        let more = heard_moments(
            a@.observations,
            pts_start_ms,
            span(pts_start_ms, sound_end(c.media, pts_start_ms, pts_end_ms)),
        );
        assert((c.moments + more).skip(c.moments.len() as int) =~= more);
        assert((c.moments + more).take(c.moments.len() as int) =~= c.moments);
    }
}

/// An answer is kept with who gave it and what it cost; one that cannot be read
/// leaves the chunk without it, marked so.
pub proof fn answers_are_kept_or_marked(c: ChunkView, outcome: ProviderOutcome, custom_schema: bool)
    ensures
        ({
            let after = with_outcome(c, outcome, custom_schema);
            &&& outcome matches ProviderOutcome::Answered(a) ==> after.provider == Some(a.provider@)
                && after.usage == a.usage && after.provider_fallback_used == a.fallback_used
                && after.inference_latency_ms == a.inference_latency_ms && after.response_chars
                == Some(a.output_text@.len() as usize) && after.finish_reason == opt_text(
                a.finish_reason,
            )
            &&& outcome !is Answered ==> after.used_fallback && after.error is Some
                && after.provider == c.provider && after.overlay == c.overlay && after.moments
                == c.moments
            &&& outcome is NoPermit ==> after.error == Some("provider_saturated"@)
            &&& outcome matches ProviderOutcome::Broke(e) ==> after.error == Some(
                "join_error:"@ + e@,
            )
            &&& (outcome matches ProviderOutcome::Answered(a) && !custom_schema && overlay_result(
                a.output_text@,
                window_of(c.media),
            ) is Err) ==> after.used_fallback && after.error is Some && after.moments == c.moments
                && after.overlay == c.overlay
            &&& (outcome matches ProviderOutcome::Answered(a) && !custom_schema && overlay_result(
                a.output_text@,
                window_of(c.media),
            ) is Ok) ==> after.error == c.error && after.used_fallback
                == outcome->Answered_0.fallback_used
            &&& (outcome is Answered && !custom_schema && c.local_audio is None && overlay_result(
                outcome->Answered_0.output_text@,
                window_of(c.media),
            ) is Ok) ==> after.overlay == Some(
                overlay_result(outcome->Answered_0.output_text@, window_of(c.media))->Ok_0.0,
            )
            &&& outcome is Answered && custom_schema ==> after.overlay is None
                && after.raw_output is Some && after.raw_text is Some && after.moments == c.moments
        }),
{
}

/// A chunk is spoken exactly if that was asked for and it has words to speak, of
/// which at most two thousand characters are.
pub proof fn chunks_are_spoken_on_request(c: ChunkView, voice_feedback: bool)
    ensures
        spoken_text(c, voice_feedback) is Some <==> voice_feedback && c.overlay is Some && trimmed(
            c.overlay->0.description,
        ).len() > 0,
        spoken_text(c, voice_feedback) matches Some(s) ==> s == clipped(
            trimmed(c.overlay->0.description),
            2_000,
        ),
{
}

/// What was spoken is kept; what went wrong is told, and the chunk's own results
/// stay.
pub proof fn speech_is_kept(c: ChunkView, round_trip_ms: u64, outcome: FeedbackOutcome)
    ensures
        ({
            let after = with_feedback(c, round_trip_ms, outcome);
            &&& after.local_audio_telemetry.tts_attempted
            &&& after.local_audio_telemetry.tts_round_trip_ms == round_trip_ms
            &&& outcome matches FeedbackOutcome::Spoken(f) ==> after.feedback_audio == Some(f@)
                && after.local_audio_error == c.local_audio_error
            &&& outcome matches FeedbackOutcome::Refused(reason, error) ==> after.local_audio_error
                == Some("voice_feedback_failed:"@ + error@)
                && after.local_audio_telemetry.tts_failure_reason == Some(reason)
            &&& outcome !is Spoken ==> after.feedback_audio == c.feedback_audio
                && after.local_audio_error is Some
            &&& after.overlay == c.overlay && after.moments == c.moments && after.error == c.error
        }),
{
}

/// A prompt ends with the times of its chunk, and tells its frames where no clip
/// goes with it.
pub proof fn prompts_end_with_their_times(
    semantic_prompt: Seq<char>,
    mode: Option<SemanticMediaMode>,
    heard: Option<HeardView>,
    frame_start_index: u64,
    frame_count: int,
    pts_start_ms: u64,
    pts_end_ms: u64,
)
    requires
        frame_count >= 1,
        frame_start_index + frame_count <= u64::MAX,
    ensures
        ({
            let p = prompt_of(
                semantic_prompt,
                mode,
                heard,
                frame_start_index,
                frame_count,
                pts_start_ms,
                pts_end_ms,
            );
            let times = "\nchunk_pts_start_ms="@ + decimal(pts_start_ms as nat)
                + "\nchunk_pts_end_ms="@ + decimal(pts_end_ms as nat);
            let frames = "\nchunk_frame_start="@ + decimal(frame_start_index as nat)
                + "\nchunk_frame_end="@ + decimal((frame_start_index + frame_count - 1) as nat);
            &&& semantic_prompt.is_prefix_of(p)
            &&& mode is None && heard is None ==> p == semantic_prompt + frames + times
            &&& mode == Some(SemanticMediaMode::AudioVideo) && heard is None ==> p
                == semantic_prompt + MULTIMODAL_INSTRUCTION@ + times
            &&& heard is Some && mode is None ==> p == semantic_prompt + heard_account(
                heard->0.observations,
            ) + frames + times
        }),
{
    let p = prompt_of(
        semantic_prompt,
        mode,
        heard,
        frame_start_index,
        frame_count,
        pts_start_ms,
        pts_end_ms,
    );
    let times = "\nchunk_pts_start_ms="@ + decimal(pts_start_ms as nat) + "\nchunk_pts_end_ms="@
        + decimal(pts_end_ms as nat);
    let frames = "\nchunk_frame_start="@ + decimal(frame_start_index as nat)
        + "\nchunk_frame_end="@ + decimal((frame_start_index + frame_count - 1) as nat);
    assert(p.take(semantic_prompt.len() as int) =~= semantic_prompt);
    if mode is None && heard is None {
        assert(p =~= semantic_prompt + frames + times);
    } else if mode == Some(SemanticMediaMode::AudioVideo) && heard is None {
        assert(p =~= semantic_prompt + MULTIMODAL_INSTRUCTION@ + times);
    } else if heard is Some && mode is None {
        assert(p =~= semantic_prompt + heard_account(heard->0.observations) + frames + times);
    }
}

} // verus!
