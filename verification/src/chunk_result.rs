//! What the inference over one chunk brought, and how it is told in the log.

use vstd::prelude::*;

use crate::audio::{AudioAnalysis, ObservationView};
use crate::chunks::{MediaResolution, SemanticMediaMode};
use crate::json::{
    fraction_view, jsons_of, list_of, number_view, opt_json, text_or_null, text_views, value_or_null,
    Fields, Json, JsonView, ToJson,
};
use crate::models::TokenUsage;
use crate::overlay::{opt_overlay, MomentView, OverlayView, SemanticMoment, SemanticOverlay};
use crate::sort::views;
use crate::text::opt_text;

verus! {

/// The clip that a chunk was shown as.
#[derive(Debug)]
pub struct SemanticMediaEvidence {
    pub bytes: Vec<u8>,
    pub media_type: &'static str,
    pub mode: SemanticMediaMode,
    pub source_start_ms: u64,
    pub source_end_ms: u64,
    pub audio_streams: u16,
    pub audio_channels: u16,
    pub audio_mixed: bool,
    pub extraction_ms: u64,
    pub resolution: MediaResolution,
    pub persist_evidence: bool,
}

/// What a clip is.
pub ghost struct MediaView {
    pub bytes: Seq<u8>,
    pub media_type: Seq<char>,
    pub mode: SemanticMediaMode,
    pub source_start_ms: u64,
    pub source_end_ms: u64,
    pub audio_streams: u16,
    pub audio_channels: u16,
    pub audio_mixed: bool,
    pub extraction_ms: u64,
    pub resolution: MediaResolution,
    pub persist_evidence: bool,
}

impl View for SemanticMediaEvidence {
    type V = MediaView;

    open spec fn view(&self) -> MediaView {
        MediaView {
            bytes: self.bytes@,
            media_type: self.media_type@,
            mode: self.mode,
            source_start_ms: self.source_start_ms,
            source_end_ms: self.source_end_ms,
            audio_streams: self.audio_streams,
            audio_channels: self.audio_channels,
            audio_mixed: self.audio_mixed,
            extraction_ms: self.extraction_ms,
            resolution: self.resolution,
            persist_evidence: self.persist_evidence,
        }
    }
}

/// Spoken feedback that was made for a chunk.
#[derive(Debug)]
pub struct FeedbackAudioEvidence {
    pub bytes: Vec<u8>,
    pub media_type: &'static str,
    pub model: String,
    pub sample_rate_hz: u32,
    pub processing_ms: u64,
    /// What the front end reported of its capacity.
    pub capacity: Json,
}

/// What spoken feedback is.
pub ghost struct FeedbackView {
    pub bytes: Seq<u8>,
    pub media_type: Seq<char>,
    pub model: Seq<char>,
    pub sample_rate_hz: u32,
    pub processing_ms: u64,
    pub capacity: JsonView,
}

impl View for FeedbackAudioEvidence {
    type V = FeedbackView;

    open spec fn view(&self) -> FeedbackView {
        FeedbackView {
            bytes: self.bytes@,
            media_type: self.media_type@,
            model: self.model@,
            sample_rate_hz: self.sample_rate_hz,
            processing_ms: self.processing_ms,
            capacity: self.capacity@,
        }
    }
}

/// Why the audio front end gave nothing.
#[derive(Clone, Copy, Debug, PartialEq, Eq, Structural)]
pub enum AudioFailureReason {
    /// The audio could not be decoded.
    Decode,
    /// The front end broke down at its work.
    Inference,
    /// Another reason that the front end gave.
    Reported,
}

/// How the calls to the audio front end went.
#[derive(Clone, Copy, Debug, PartialEq, Eq, Structural)]
pub struct LocalAudioTelemetry {
    pub wav_extraction_ms: u64,
    pub wav_bytes: u64,
    pub requested_duration_ms: u64,
    pub round_trip_ms: u64,
    pub failure_reason: Option<AudioFailureReason>,
    pub tts_attempted: bool,
    pub tts_round_trip_ms: u64,
    pub tts_failure_reason: Option<AudioFailureReason>,
}

/// Nothing was called.
pub open spec fn no_telemetry() -> LocalAudioTelemetry {
    LocalAudioTelemetry {
        wav_extraction_ms: 0,
        wav_bytes: 0,
        requested_duration_ms: 0,
        round_trip_ms: 0,
        failure_reason: None,
        tts_attempted: false,
        tts_round_trip_ms: 0,
        tts_failure_reason: None,
    }
}

impl Default for LocalAudioTelemetry {
    fn default() -> (r: Self)
        ensures
            r == no_telemetry(),
    {
        LocalAudioTelemetry {
            wav_extraction_ms: 0,
            wav_bytes: 0,
            requested_duration_ms: 0,
            round_trip_ms: 0,
            failure_reason: None,
            tts_attempted: false,
            tts_round_trip_ms: 0,
            tts_failure_reason: None,
        }
    }
}

/// What the inference over one chunk brought.
#[derive(Debug)]
pub struct ChunkSemanticResult {
    pub overlay: Option<SemanticOverlay>,
    pub raw_output: Option<Json>,
    /// How the raw output is written.
    pub raw_text: Option<String>,
    pub provider: Option<String>,
    pub provider_fallback_used: bool,
    pub used_fallback: bool,
    pub error: Option<String>,
    pub attempted: bool,
    pub finish_reason: Option<String>,
    pub response_chars: Option<usize>,
    pub usage: TokenUsage,
    pub inference_latency_ms: u64,
    pub moments: Vec<SemanticMoment>,
    pub media: Option<SemanticMediaEvidence>,
    pub local_audio: Option<AudioAnalysis>,
    pub local_audio_error: Option<String>,
    pub feedback_audio: Option<FeedbackAudioEvidence>,
    pub local_audio_telemetry: LocalAudioTelemetry,
}

/// What the front end heard, and its report.
pub ghost struct HeardView {
    pub observations: Seq<ObservationView>,
    pub audio_duration_ms: u64,
    pub report: JsonView,
}

impl View for AudioAnalysis {
    type V = HeardView;

    open spec fn view(&self) -> HeardView {
        HeardView {
            observations: views(self.observations@),
            audio_duration_ms: self.audio_duration_ms,
            report: self.report@,
        }
    }
}

/// What the inference over one chunk brought.
pub ghost struct ChunkView {
    pub overlay: Option<OverlayView>,
    pub raw_output: Option<JsonView>,
    pub raw_text: Option<Seq<char>>,
    pub provider: Option<Seq<char>>,
    pub provider_fallback_used: bool,
    pub used_fallback: bool,
    pub error: Option<Seq<char>>,
    pub attempted: bool,
    pub finish_reason: Option<Seq<char>>,
    pub response_chars: Option<usize>,
    pub usage: TokenUsage,
    pub inference_latency_ms: u64,
    pub moments: Seq<MomentView>,
    pub media: Option<MediaView>,
    pub local_audio: Option<HeardView>,
    pub local_audio_error: Option<Seq<char>>,
    pub feedback_audio: Option<FeedbackView>,
    pub local_audio_telemetry: LocalAudioTelemetry,
}

/// The view of an optional value.
pub open spec fn opt_view<T: View>(o: Option<T>) -> Option<T::V> {
    match o {
        Some(v) => Some(v@),
        None => None,
    }
}

impl View for ChunkSemanticResult {
    type V = ChunkView;

    open spec fn view(&self) -> ChunkView {
        ChunkView {
            overlay: opt_overlay(self.overlay),
            raw_output: opt_json(self.raw_output),
            raw_text: opt_text(self.raw_text),
            provider: opt_text(self.provider),
            provider_fallback_used: self.provider_fallback_used,
            used_fallback: self.used_fallback,
            error: opt_text(self.error),
            attempted: self.attempted,
            finish_reason: opt_text(self.finish_reason),
            response_chars: self.response_chars,
            usage: self.usage,
            inference_latency_ms: self.inference_latency_ms,
            moments: views(self.moments@),
            media: opt_view(self.media),
            local_audio: opt_view(self.local_audio),
            local_audio_error: opt_text(self.local_audio_error),
            feedback_audio: opt_view(self.feedback_audio),
            local_audio_telemetry: self.local_audio_telemetry,
        }
    }
}

/// Nothing was tried.
pub open spec fn untried() -> ChunkView {
    ChunkView {
        overlay: None,
        raw_output: None,
        raw_text: None,
        provider: None,
        provider_fallback_used: false,
        used_fallback: false,
        error: None,
        attempted: false,
        finish_reason: None,
        response_chars: None,
        usage: TokenUsage::none_spec(),
        inference_latency_ms: 0,
        moments: Seq::empty(),
        media: None,
        local_audio: None,
        local_audio_error: None,
        feedback_audio: None,
        local_audio_telemetry: no_telemetry(),
    }
}

impl Default for ChunkSemanticResult {
    fn default() -> (r: Self)
        ensures
            r@ == untried(),
    {
        let r = ChunkSemanticResult {
            overlay: None,
            raw_output: None,
            raw_text: None,
            provider: None,
            provider_fallback_used: false,
            used_fallback: false,
            error: None,
            attempted: false,
            finish_reason: None,
            response_chars: None,
            usage: TokenUsage::none(),
            inference_latency_ms: 0,
            moments: Vec::new(),
            media: None,
            local_audio: None,
            local_audio_error: None,
            feedback_audio: None,
            local_audio_telemetry: LocalAudioTelemetry::default(),
        };
        assert(views(r.moments@) =~= Seq::empty());
        r
    }
}

/// A moment as JSON.
pub open spec fn moment_json(m: MomentView) -> JsonView {
    JsonView::Object(
        seq![
            ("start_offset_ms"@, number_view(m.start_offset_ms)),
            ("end_offset_ms"@, number_view(m.end_offset_ms)),
            ("start_pts_ms"@, number_view(m.start_pts_ms)),
            ("end_pts_ms"@, number_view(m.end_pts_ms)),
            ("modalities"@, JsonView::Array(text_views(m.modalities))),
            ("kind"@, JsonView::Text(m.kind)),
            ("description"@, JsonView::Text(m.description)),
            ("intent"@, text_or_null(m.intent)),
            ("audio_visual_relation"@, text_or_null(m.audio_visual_relation)),
            ("confidence"@, fraction_view(m.confidence.widened())),
        ],
    )
}

impl ToJson for SemanticMoment {
    open spec fn json_of(v: MomentView) -> JsonView {
        moment_json(v)
    }

    fn to_json(&self) -> (r: Json) {
        let mut o = Fields::new();
        o.put("start_offset_ms", Json::number(self.start_offset_ms));
        o.put("end_offset_ms", Json::number(self.end_offset_ms));
        o.put("start_pts_ms", Json::number(self.start_pts_ms));
        o.put("end_pts_ms", Json::number(self.end_pts_ms));
        o.put("modalities", Json::text_list(&self.modalities));
        o.put("kind", Json::text(self.kind.as_str()));
        o.put("description", Json::text(self.description.as_str()));
        o.put("intent", Json::text_or_null(&self.intent));
        o.put("audio_visual_relation", Json::text_or_null(&self.audio_visual_relation));
        o.put("confidence", Json::single(self.confidence));
        assert(o@ =~= moment_json(self@)->Object_0);
        o.object()
    }
}

/// One text of an overlay, where there is one.
pub open spec fn overlay_text(o: Option<OverlayView>, pick: spec_fn(OverlayView) -> Seq<char>) -> JsonView {
    match o {
        Some(v) => JsonView::Text(pick(v)),
        None => JsonView::Null,
    }
}

/// How the log tells of a chunk.
pub open spec fn chunk_payload(
    c: ChunkView,
    chunk_idx: int,
    request_id: Seq<char>,
    stream_id: Seq<char>,
) -> JsonView {
    JsonView::Object(
        seq![
            ("request_id"@, JsonView::Text(request_id)),
            ("stream_id"@, JsonView::Text(stream_id)),
            ("chunk_index"@, number_view(chunk_idx as u64)),
            ("provider"@, text_or_null(c.provider)),
            ("provider_fallback_used"@, JsonView::Bool(c.provider_fallback_used)),
            ("semantic_fallback_used"@, JsonView::Bool(c.used_fallback)),
            ("semantic_error"@, text_or_null(c.error)),
            ("finish_reason"@, text_or_null(c.finish_reason)),
            (
                "response_chars"@,
                match c.response_chars {
                    Some(n) => number_view(n as u64),
                    None => JsonView::Null,
                },
            ),
            ("event_type"@, overlay_text(c.overlay, |o: OverlayView| o.event_type)),
            ("object_label"@, overlay_text(c.overlay, |o: OverlayView| o.object_label)),
            ("summary"@, overlay_text(c.overlay, |o: OverlayView| o.summary)),
            ("description"@, overlay_text(c.overlay, |o: OverlayView| o.description)),
            (
                "confidence"@,
                match c.overlay {
                    Some(o) => fraction_view(o.confidence.widened()),
                    None => JsonView::Null,
                },
            ),
            ("raw_output"@, value_or_null(c.raw_output)),
            ("prompt_tokens"@, number_view(c.usage.prompt_tokens as u64)),
            ("completion_tokens"@, number_view(c.usage.completion_tokens as u64)),
            ("thinking_tokens"@, number_view(c.usage.thinking_tokens as u64)),
            ("total_tokens"@, number_view(c.usage.total_tokens as u64)),
            ("inference_latency_ms"@, number_view(c.inference_latency_ms)),
            ("moments"@, JsonView::Array(jsons_of::<SemanticMoment>(c.moments))),
            (
                "local_audio"@,
                match c.local_audio {
                    Some(a) => a.report,
                    None => JsonView::Null,
                },
            ),
            ("local_audio_error"@, text_or_null(c.local_audio_error)),
        ],
    )
}

impl ChunkSemanticResult {
    /// How the log tells of a chunk; nothing where inference was not tried.
    pub fn event_payload(&self, chunk_idx: usize, request_id: &str, stream_id: &str) -> (r: Option<
        Json,
    >)
        ensures
            match r {
                Some(j) => self.attempted && j@ == chunk_payload(
                    self@,
                    chunk_idx as int,
                    request_id@,
                    stream_id@,
                ),
                None => !self.attempted,
            },
    {
        if !self.attempted {
            return None;
        }
        let mut o = Fields::new();
        o.put("request_id", Json::text(request_id));
        o.put("stream_id", Json::text(stream_id));
        o.put("chunk_index", Json::number(chunk_idx as u64));
        o.put("provider", Json::text_or_null(&self.provider));
        o.put("provider_fallback_used", Json::Bool(self.provider_fallback_used));
        o.put("semantic_fallback_used", Json::Bool(self.used_fallback));
        o.put("semantic_error", Json::text_or_null(&self.error));
        o.put("finish_reason", Json::text_or_null(&self.finish_reason));
        o.put(
            "response_chars",
            match self.response_chars {
                Some(n) => Json::number(n as u64),
                None => Json::Null,
            },
        );
        match &self.overlay {
            Some(v) => {
                o.put("event_type", Json::text(v.event_type.as_str()));
                o.put("object_label", Json::text(v.object_label.as_str()));
                o.put("summary", Json::text(v.summary.as_str()));
                o.put("description", Json::text(v.description.as_str()));
                o.put("confidence", Json::single(v.confidence));
            },
            None => {
                o.put("event_type", Json::Null);
                o.put("object_label", Json::Null);
                o.put("summary", Json::Null);
                o.put("description", Json::Null);
                o.put("confidence", Json::Null);
            },
        }
        o.put(
            "raw_output",
            match &self.raw_output {
                Some(v) => v.copy(),
                None => Json::Null,
            },
        );
        o.put("prompt_tokens", Json::number(self.usage.prompt_tokens as u64));
        o.put("completion_tokens", Json::number(self.usage.completion_tokens as u64));
        o.put("thinking_tokens", Json::number(self.usage.thinking_tokens as u64));
        o.put("total_tokens", Json::number(self.usage.total_tokens as u64));
        o.put("inference_latency_ms", Json::number(self.inference_latency_ms));
        o.put("moments", list_of(&self.moments));
        o.put(
            "local_audio",
            match &self.local_audio {
                Some(a) => a.report.copy(),
                None => Json::Null,
            },
        );
        o.put("local_audio_error", Json::text_or_null(&self.local_audio_error));
        assert(o@ =~= chunk_payload(self@, chunk_idx as int, request_id@, stream_id@)->Object_0);
        Some(o.object())
    }
}

/// A moment is told whole.
pub proof fn moments_are_told_whole(m: MomentView)
    ensures
        ({
            let told = moment_json(m);
            &&& told.unsigned_at("start_offset_ms"@) == Some(m.start_offset_ms)
            &&& told.unsigned_at("end_offset_ms"@) == Some(m.end_offset_ms)
            &&& told.unsigned_at("start_pts_ms"@) == Some(m.start_pts_ms)
            &&& told.unsigned_at("end_pts_ms"@) == Some(m.end_pts_ms)
            &&& told.items_at("modalities"@) == Some(text_views(m.modalities))
            &&& told.text_at("kind"@) == Some(m.kind)
            &&& told.text_at("description"@) == Some(m.description)
            &&& told.text_at("intent"@) == m.intent
            &&& told.text_at("audio_visual_relation"@) == m.audio_visual_relation
            &&& told.get("confidence"@) == Some(fraction_view(m.confidence.widened()))
        }),
{
    reveal_strlit("start_offset_ms");
    reveal_strlit("end_offset_ms");
    reveal_strlit("start_pts_ms");
    reveal_strlit("end_pts_ms");
    reveal_strlit("modalities");
    reveal_strlit("kind");
    reveal_strlit("description");
    reveal_strlit("intent");
    reveal_strlit("audio_visual_relation");
    reveal_strlit("confidence");
    assert("start_offset_ms"@.len() == 15);
    assert("end_offset_ms"@.len() == 13);
    assert("start_pts_ms"@.len() == 12);
    assert("end_pts_ms"@.len() == 10);
    assert("modalities"@.len() == 10);
    assert("kind"@.len() == 4);
    assert("description"@.len() == 11);
    assert("intent"@.len() == 6);
    assert("audio_visual_relation"@.len() == 21);
    assert("confidence"@.len() == 10);
    assert("end_pts_ms"@[0] == 'e' && "modalities"@[0] == 'm');
    assert("end_pts_ms"@[0] == 'e' && "confidence"@[0] == 'c');
    assert("modalities"@[0] == 'm' && "confidence"@[0] == 'c');
    let fields = moment_json(m)->Object_0;
    crate::json::field_is_found(fields, 0);
    crate::json::field_is_found(fields, 1);
    crate::json::field_is_found(fields, 2);
    crate::json::field_is_found(fields, 3);
    crate::json::field_is_found(fields, 4);
    crate::json::field_is_found(fields, 5);
    crate::json::field_is_found(fields, 6);
    crate::json::field_is_found(fields, 7);
    crate::json::field_is_found(fields, 8);
    crate::json::field_is_found(fields, 9);
}

/// A chunk is logged with what was asked, what came back, and what it cost.
#[verifier::rlimit(40)]
pub proof fn chunks_are_logged_whole(
    c: ChunkView,
    chunk_idx: int,
    request_id: Seq<char>,
    stream_id: Seq<char>,
)
    ensures
        ({
            let told = chunk_payload(c, chunk_idx, request_id, stream_id);
            &&& told.text_at("request_id"@) == Some(request_id)
            &&& told.text_at("stream_id"@) == Some(stream_id)
            &&& told.unsigned_at("chunk_index"@) == Some(chunk_idx as u64)
            &&& told.text_at("provider"@) == c.provider
            &&& told.flag_at("provider_fallback_used"@) == Some(c.provider_fallback_used)
            &&& told.flag_at("semantic_fallback_used"@) == Some(c.used_fallback)
            &&& told.text_at("semantic_error"@) == c.error
            &&& told.text_at("finish_reason"@) == c.finish_reason
            &&& c.overlay matches Some(o) ==> {
                &&& told.text_at("event_type"@) == Some(o.event_type)
                &&& told.text_at("object_label"@) == Some(o.object_label)
                &&& told.text_at("summary"@) == Some(o.summary)
                &&& told.text_at("description"@) == Some(o.description)
            }
            &&& told.unsigned_at("prompt_tokens"@) == Some(c.usage.prompt_tokens as u64)
            &&& told.unsigned_at("completion_tokens"@) == Some(c.usage.completion_tokens as u64)
            &&& told.unsigned_at("thinking_tokens"@) == Some(c.usage.thinking_tokens as u64)
            &&& told.unsigned_at("total_tokens"@) == Some(c.usage.total_tokens as u64)
            &&& told.unsigned_at("inference_latency_ms"@) == Some(c.inference_latency_ms)
            &&& told.items_at("moments"@) is Some && told.items_at("moments"@)->0.len()
                == c.moments.len()
            &&& told.text_at("local_audio_error"@) == c.local_audio_error
        }),
{
    reveal_strlit("request_id");
    reveal_strlit("stream_id");
    reveal_strlit("chunk_index");
    reveal_strlit("provider");
    reveal_strlit("provider_fallback_used");
    reveal_strlit("semantic_fallback_used");
    reveal_strlit("semantic_error");
    reveal_strlit("finish_reason");
    reveal_strlit("response_chars");
    reveal_strlit("event_type");
    reveal_strlit("object_label");
    reveal_strlit("summary");
    reveal_strlit("description");
    reveal_strlit("confidence");
    reveal_strlit("raw_output");
    reveal_strlit("prompt_tokens");
    reveal_strlit("completion_tokens");
    reveal_strlit("thinking_tokens");
    reveal_strlit("total_tokens");
    reveal_strlit("inference_latency_ms");
    reveal_strlit("moments");
    reveal_strlit("local_audio");
    reveal_strlit("local_audio_error");
    assert("request_id"@.len() == 10);
    assert("stream_id"@.len() == 9);
    assert("chunk_index"@.len() == 11);
    assert("provider"@.len() == 8);
    assert("provider_fallback_used"@.len() == 22);
    assert("semantic_fallback_used"@.len() == 22);
    assert("semantic_error"@.len() == 14);
    assert("finish_reason"@.len() == 13);
    assert("response_chars"@.len() == 14);
    assert("event_type"@.len() == 10);
    assert("object_label"@.len() == 12);
    assert("summary"@.len() == 7);
    assert("description"@.len() == 11);
    assert("confidence"@.len() == 10);
    assert("raw_output"@.len() == 10);
    assert("prompt_tokens"@.len() == 13);
    assert("completion_tokens"@.len() == 17);
    assert("thinking_tokens"@.len() == 15);
    assert("total_tokens"@.len() == 12);
    assert("inference_latency_ms"@.len() == 20);
    assert("moments"@.len() == 7);
    assert("local_audio"@.len() == 11);
    assert("local_audio_error"@.len() == 17);
    assert("request_id"@[0] == 'r' && "event_type"@[0] == 'e');
    assert("request_id"@[0] == 'r' && "confidence"@[0] == 'c');
    assert("request_id"@[1] == 'e' && "raw_output"@[1] == 'a');
    assert("event_type"@[0] == 'e' && "confidence"@[0] == 'c');
    assert("event_type"@[0] == 'e' && "raw_output"@[0] == 'r');
    assert("confidence"@[0] == 'c' && "raw_output"@[0] == 'r');
    assert("chunk_index"@[0] == 'c' && "description"@[0] == 'd');
    assert("chunk_index"@[0] == 'c' && "local_audio"@[0] == 'l');
    assert("description"@[0] == 'd' && "local_audio"@[0] == 'l');
    assert("provider_fallback_used"@[0] == 'p' && "semantic_fallback_used"@[0] == 's');
    assert("semantic_error"@[0] == 's' && "response_chars"@[0] == 'r');
    assert("finish_reason"@[0] == 'f' && "prompt_tokens"@[0] == 'p');
    assert("object_label"@[0] == 'o' && "total_tokens"@[0] == 't');
    assert("summary"@[0] == 's' && "moments"@[0] == 'm');
    assert("completion_tokens"@[0] == 'c' && "local_audio_error"@[0] == 'l');
    let fields = chunk_payload(c, chunk_idx, request_id, stream_id)->Object_0;
    crate::json::field_is_found(fields, 0);
    crate::json::field_is_found(fields, 1);
    crate::json::field_is_found(fields, 2);
    crate::json::field_is_found(fields, 3);
    crate::json::field_is_found(fields, 4);
    crate::json::field_is_found(fields, 5);
    crate::json::field_is_found(fields, 6);
    crate::json::field_is_found(fields, 7);
    crate::json::field_is_found(fields, 9);
    crate::json::field_is_found(fields, 10);
    crate::json::field_is_found(fields, 11);
    crate::json::field_is_found(fields, 12);
    crate::json::field_is_found(fields, 15);
    crate::json::field_is_found(fields, 16);
    crate::json::field_is_found(fields, 17);
    crate::json::field_is_found(fields, 18);
    crate::json::field_is_found(fields, 19);
    crate::json::field_is_found(fields, 20);
    crate::json::field_is_found(fields, 22);
}

} // verus!
