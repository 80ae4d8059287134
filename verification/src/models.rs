//! Request and response bodies, with fractions carried by their patterns.

use vstd::prelude::*;

use crate::ieee::Single;
use crate::json::Json;
use crate::text::{lowered, opt_str, same, to_lower};

verus! {

/// Tokens that one inference call spent.
#[derive(Clone, Copy, Debug, PartialEq, Eq, Structural)]
pub struct TokenUsage {
    pub prompt_tokens: u32,
    pub completion_tokens: u32,
    pub thinking_tokens: u32,
    pub total_tokens: u32,
}

impl TokenUsage {
    /// Nothing spent.
    pub open spec fn none_spec() -> TokenUsage {
        TokenUsage { prompt_tokens: 0, completion_tokens: 0, thinking_tokens: 0, total_tokens: 0 }
    }

    /// Nothing spent.
    pub fn none() -> (r: TokenUsage)
        ensures
            r == TokenUsage::none_spec(),
    {
        TokenUsage { prompt_tokens: 0, completion_tokens: 0, thinking_tokens: 0, total_tokens: 0 }
    }
}

/// Parameters for clip-mode inference over several frames at once.
#[derive(Clone, Copy, Debug)]
pub struct ClipConfig {
    /// Frames per second to sample from the stream.
    pub target_fps: u32,
    /// Duration of each clip window in seconds.
    pub clip_length_seconds: Single,
    /// Minimum delay between clip emissions in seconds.
    pub delay_seconds: Single,
}

/// Frames per second where a request names none.
pub fn default_target_fps() -> (r: u32)
    ensures
        r == 6,
{
    6
}

/// One half, the clip length in seconds where a request names none.
pub fn default_clip_length_seconds() -> (r: Single)
    ensures
        r.bits == 0x3f00_0000,
{
    Single { bits: 0x3f00_0000 }
}

/// One half, the delay in seconds where a request names none.
pub fn default_delay_seconds() -> (r: Single)
    ensures
        r.bits == 0x3f00_0000,
{
    Single { bits: 0x3f00_0000 }
}

/// Body of `POST /v1/runs`.
#[derive(Debug)]
pub struct CreateRunRequest {
    pub mode: Option<String>,
    pub model: Option<String>,
}

/// Body of `POST /v1/infer`.
#[derive(Debug)]
pub struct InferRequest {
    pub run_id: Option<String>,
    pub model: String,
    pub prompt: String,
    pub max_tokens: Option<u32>,
    pub temperature: Option<Single>,
    pub timeout_ms: Option<u64>,
    pub allow_fallback: Option<bool>,
    pub primary_provider: Option<String>,
    /// The JSON text of the schema that the output must follow.
    pub output_schema: Option<String>,
}

/// Body of `POST /v1/infer/batch`.
#[derive(Debug)]
pub struct InferBatchRequest {
    pub requests: Vec<InferRequest>,
    pub max_parallel: Option<usize>,
}

/// One frame of an analyze request.
#[derive(Clone, Copy, Debug)]
pub struct AnalyzeFrameInput {
    pub frame_index: u64,
    pub pts_ms: u64,
    pub perceptual_hash: u64,
    pub luma_mean: Single,
    pub flicker_score: Single,
    pub ghosting_score: Single,
    pub noise_variance_score: Single,
}

/// Body of `POST /v1/runs/{run_id}/analyze`.
#[derive(Debug)]
pub struct AnalyzeFramesRequest {
    pub mode: Option<String>,
    pub model: String,
    pub stream_id: Option<String>,
    pub sampling_policy: Option<String>,
    pub fixed_fps: Option<Single>,
    pub frames: Vec<AnalyzeFrameInput>,
    pub window_size: Option<usize>,
    pub segment_ms: Option<u64>,
    pub trace_id: Option<String>,
}

/// Body of `POST /v1/runs/{run_id}/reason`.
#[derive(Debug)]
pub struct RealtimeReasonRequest {
    pub source_uri: String,
    pub mode: Option<String>,
    pub model: String,
    pub stream_id: Option<String>,
    pub sampling_policy: Option<String>,
    pub fixed_fps: Option<Single>,
    pub max_frames: Option<u64>,
    pub chunk_size: Option<usize>,
    pub window_size: Option<usize>,
    pub segment_ms: Option<u64>,
    pub marker_correction_window_frames: Option<u64>,
    pub semantic_inference: Option<bool>,
    pub semantic_frames_per_chunk: Option<usize>,
    /// Cap on the longest edge, in pixels, of each frame that is sent.
    pub semantic_frame_max_edge: Option<u32>,
    pub semantic_timeout_ms: Option<u64>,
    pub primary_provider: Option<String>,
    pub semantic_prompt: Option<String>,
    pub first_pass_model: Option<String>,
    pub second_pass_model: Option<String>,
    pub second_pass_threshold: Option<Single>,
    pub trace_id: Option<String>,
    /// The JSON text of the schema that the output must follow.
    pub output_schema: Option<String>,
    pub clip_mode: Option<ClipConfig>,
    /// Tags the events of this pass, so that several passes over one run can be
    /// told apart.
    pub index_name: Option<String>,
    /// Chunks one after the other, each told what the one before showed.
    pub temporal_chain: Option<bool>,
    /// The frame of the chunk before goes along; implies `temporal_chain`.
    pub visual_diff: Option<bool>,
    pub gate_filter: Option<bool>,
    /// Short clips in place of single frames.
    pub video_clip_mode: Option<bool>,
    pub video_clip_duration_s: Option<Single>,
    /// How many inference calls may be in flight at once.
    pub vlm_concurrency: Option<usize>,
}

/// Reply to `POST /v1/infer`.
#[derive(Debug)]
pub struct InferResponse {
    pub request_id: String,
    pub run_id: Option<String>,
    pub provider: String,
    pub model: String,
    pub fallback_used: bool,
    pub output_text: String,
    pub finish_reason: Option<String>,
    pub inference_latency_ms: u64,
    pub tokens: TokenUsage,
}

/// Why one item of a batch failed.
#[derive(Debug)]
pub struct InferBatchItemError {
    pub code: &'static str,
    pub message: String,
}

/// What became of one item of a batch.
#[derive(Debug)]
pub struct InferBatchItemResult {
    pub index: usize,
    pub ok: bool,
    pub result: Option<InferResponse>,
    pub error: Option<InferBatchItemError>,
}

/// Reply to `POST /v1/infer/batch`.
#[derive(Debug)]
pub struct InferBatchResponse {
    pub request_id: String,
    pub processed: usize,
    pub succeeded: usize,
    pub failed: usize,
    pub results: Vec<InferBatchItemResult>,
}

/// The stretch of time that a frame was judged in.
#[derive(Debug)]
pub struct AnalyzeWindow {
    pub start_ms: u64,
    pub end_ms: u64,
    pub segment_id: String,
    pub source: &'static str,
}

/// An object seen in a frame.
#[derive(Debug)]
pub struct AnalyzeObject {
    pub label: String,
    pub score: Single,
}

/// An event seen in a frame.
#[derive(Debug)]
pub struct AnalyzeEvent {
    pub kind: String,
    pub score: Single,
    pub description: String,
}

/// What was seen in a frame.
#[derive(Debug)]
pub struct AnalyzeAnnotations {
    pub summary: String,
    pub objects: Vec<AnalyzeObject>,
    pub events: Vec<AnalyzeEvent>,
}

/// Whether a frame had to be judged by rules alone.
#[derive(Clone, Copy, Debug)]
pub struct AnalyzeFallback {
    pub used: bool,
}

/// How a frame can be found again in traces.
#[derive(Debug)]
pub struct AnalyzeTrace {
    pub request_id: String,
    pub trace_id: String,
    pub span_id: String,
}

/// A marker as the API shows it.
#[derive(Debug)]
pub struct AnalyzeMarker {
    pub marker_id: String,
    pub run_id: String,
    pub stream_id: String,
    pub event_type: String,
    pub status: String,
    pub start_frame: u64,
    pub end_frame: u64,
    pub start_pts_ms: u64,
    pub end_pts_ms: u64,
    pub confidence: Single,
    pub supersedes_marker_id: Option<String>,
}

/// What was found out about one frame.
#[derive(Debug)]
pub struct AnalyzeFrameMetadata {
    pub run_id: String,
    pub stream_id: String,
    pub frame_index: u64,
    pub pts_ms: u64,
    /// The schema that the coordinates follow, where there are any.
    pub coordinate_schema: Option<&'static str>,
    pub coordinates: Option<Json>,
    pub mode: String,
    pub model: String,
    pub sampling_policy: String,
    pub sample_fps: Single,
    pub window: AnalyzeWindow,
    pub annotations: AnalyzeAnnotations,
    pub confidence: Single,
    pub fallback: AnalyzeFallback,
    pub trace: AnalyzeTrace,
    pub ordering_key: String,
    pub finish_reason: Option<String>,
}

/// Reply to an analyze request.
#[derive(Debug)]
pub struct AnalyzeFramesResponse {
    pub request_id: String,
    pub run_id: String,
    pub generated: usize,
    pub metadata: Vec<AnalyzeFrameMetadata>,
    pub markers: Vec<AnalyzeMarker>,
}

/// Tokens and latency of a whole run, summed over its analyzed chunks.
#[derive(Clone, Copy, Debug, PartialEq, Eq, Structural)]
pub struct TokenMetrics {
    pub prompt_tokens: u32,
    pub completion_tokens: u32,
    pub thinking_tokens: u32,
    pub total_tokens: u32,
    pub inference_latency_ms: u64,
    /// How many chunks ran inference.
    pub chunks_analyzed: usize,
}

/// The sum of two counters, or the largest value where it does not fit.
pub open spec fn capped_u32(a: u32, b: u32) -> u32 {
    if a + b > u32::MAX {
        u32::MAX
    } else {
        (a + b) as u32
    }
}

/// The sum of two counters, or the largest value where it does not fit.
pub open spec fn capped_u64(a: u64, b: u64) -> u64 {
    if a + b > u64::MAX {
        u64::MAX
    } else {
        (a + b) as u64
    }
}

impl Default for TokenMetrics {
    fn default() -> (r: Self)
        ensures
            r == (TokenMetrics {
                prompt_tokens: 0,
                completion_tokens: 0,
                thinking_tokens: 0,
                total_tokens: 0,
                inference_latency_ms: 0,
                chunks_analyzed: 0,
            }),
    {
        TokenMetrics {
            prompt_tokens: 0,
            completion_tokens: 0,
            thinking_tokens: 0,
            total_tokens: 0,
            inference_latency_ms: 0,
            chunks_analyzed: 0,
        }
    }
}

impl TokenMetrics {
    /// These totals with one more chunk.
    pub open spec fn with_chunk(self, usage: TokenUsage, latency_ms: u64) -> TokenMetrics {
        TokenMetrics {
            prompt_tokens: capped_u32(self.prompt_tokens, usage.prompt_tokens),
            completion_tokens: capped_u32(self.completion_tokens, usage.completion_tokens),
            thinking_tokens: capped_u32(self.thinking_tokens, usage.thinking_tokens),
            total_tokens: capped_u32(self.total_tokens, usage.total_tokens),
            inference_latency_ms: capped_u64(self.inference_latency_ms, latency_ms),
            chunks_analyzed: (self.chunks_analyzed + 1) as usize,
        }
    }

    /// Adds what one chunk spent; sums stop at the largest value.
    pub fn accumulate_chunk(&mut self, usage: TokenUsage, latency_ms: u64)
        requires
            old(self).chunks_analyzed < usize::MAX,
        ensures
            *final(self) == old(self).with_chunk(usage, latency_ms),
    {
        self.prompt_tokens = self.prompt_tokens.saturating_add(usage.prompt_tokens);
        self.completion_tokens = self.completion_tokens.saturating_add(usage.completion_tokens);
        self.thinking_tokens = self.thinking_tokens.saturating_add(usage.thinking_tokens);
        self.total_tokens = self.total_tokens.saturating_add(usage.total_tokens);
        self.inference_latency_ms = self.inference_latency_ms.saturating_add(latency_ms);
        self.chunks_analyzed += 1;
    }
}

/// Reply to a reason request.
#[derive(Debug)]
pub struct RealtimeReasonResponse {
    pub request_id: String,
    pub run_id: String,
    pub generated: usize,
    pub markers_emitted: usize,
    pub decoded_frames: usize,
    pub sample_fps: Single,
    pub lag_p95_ms: u64,
    pub lag_p99_ms: u64,
    pub tokens: TokenMetrics,
    pub metadata: Vec<AnalyzeFrameMetadata>,
    pub markers: Vec<AnalyzeMarker>,
}

/// Reply to `POST /v1/runs`.
#[derive(Debug)]
pub struct CreateRunResponse {
    pub run_id: String,
    pub request_id: String,
    pub status: &'static str,
    pub mode: String,
    pub model: Option<String>,
}

/// Body of `POST /v1/search`.
#[derive(Debug)]
pub struct SearchRequest {
    /// What a description must contain, in upper or lower case.
    pub query: String,
    /// One run to search; all runs of the caller where there is none.
    pub run_id: Option<String>,
    /// How many hits to return at most.
    pub limit: Option<usize>,
}

/// One hit of a search.
#[derive(Debug)]
pub struct SearchHit {
    pub seq: u64,
    pub run_id: String,
    pub pts_ms: u64,
    pub kind: String,
    pub description: String,
    pub index_name: Option<String>,
}

/// Reply to `POST /v1/search`.
#[derive(Debug)]
pub struct SearchResponse {
    pub request_id: String,
    /// How many events were looked at.
    pub scanned: usize,
    /// How many events matched, before the limit.
    pub total_hits: usize,
    pub hits: Vec<SearchHit>,
}

/// What is wrong with one field of a request.
#[derive(Debug)]
pub struct FieldError {
    pub field: &'static str,
    pub message: String,
}

/// How frames are picked from a source.
#[derive(Clone, Copy, Debug, PartialEq, Eq, Structural)]
pub enum SamplingPolicy {
    SourceFpsAdaptive,
    Fixed,
}

/// The policy that a request names; `None` where it names none that is known.
pub open spec fn sampling_policy_of(raw: Option<Seq<char>>) -> Option<SamplingPolicy> {
    match raw {
        None => Some(SamplingPolicy::SourceFpsAdaptive),
        Some(s) => {
            let name = lowered(s);
            if name == "source_fps_adaptive"@ || name == "adaptive"@ {
                Some(SamplingPolicy::SourceFpsAdaptive)
            } else if name == "fixed"@ {
                Some(SamplingPolicy::Fixed)
            } else {
                None
            }
        },
    }
}

impl SamplingPolicy {
    /// The policy of some name, in upper or lower case; adaptive where there is
    /// no name.
    pub fn parse(raw: Option<&str>) -> (r: Result<Self, &'static str>)
        ensures
            match r {
                Ok(p) => sampling_policy_of(opt_str(raw)) == Some(p),
                Err(m) => sampling_policy_of(opt_str(raw)) is None && m@
                    == "sampling_policy must be one of: source_fps_adaptive, fixed"@,
            },
    {
        match raw {
            None => Ok(SamplingPolicy::SourceFpsAdaptive),
            Some(s) => {
                let name = to_lower(s);
                if same(name.as_str(), "source_fps_adaptive") || same(name.as_str(), "adaptive") {
                    Ok(SamplingPolicy::SourceFpsAdaptive)
                } else if same(name.as_str(), "fixed") {
                    Ok(SamplingPolicy::Fixed)
                } else {
                    Err("sampling_policy must be one of: source_fps_adaptive, fixed")
                }
            },
        }
    }

    /// The name of a policy.
    pub open spec fn name(self) -> Seq<char> {
        match self {
            SamplingPolicy::SourceFpsAdaptive => "source_fps_adaptive"@,
            SamplingPolicy::Fixed => "fixed"@,
        }
    }

    /// The name of a policy.
    pub fn as_str(self) -> (r: &'static str)
        ensures
            r@ == self.name(),
    {
        match self {
            SamplingPolicy::SourceFpsAdaptive => "source_fps_adaptive",
            SamplingPolicy::Fixed => "fixed",
        }
    }
}

/// A policy is read back from its own name.
pub proof fn sampling_policy_names_read_back(policy: SamplingPolicy)
    ensures
        sampling_policy_of(Some(policy.name())) == Some(policy),
{
    reveal_strlit("source_fps_adaptive");
    reveal_strlit("adaptive");
    reveal_strlit("fixed");
    assert(lowered(policy.name()) =~= policy.name());
    if policy == SamplingPolicy::Fixed {
        assert("fixed"@.len() != "adaptive"@.len());
        assert("fixed"@.len() != "source_fps_adaptive"@.len());
    }
}

/// Body of a feedback request.
#[derive(Debug)]
pub struct FeedbackRequest {
    pub rating: u32,
    pub category: String,
    pub feedback: Option<String>,
}

/// One model that the server knows.
#[derive(Debug)]
pub struct ModelCatalogItem {
    pub id: String,
    pub tier: String,
    pub availability: String,
    pub providers_available: Vec<String>,
    pub fallback_candidates: Vec<String>,
}

/// Reply to `GET /v1/models`.
#[derive(Debug)]
pub struct ModelCatalogResponse {
    pub request_id: String,
    pub models: Vec<ModelCatalogItem>,
}

/// Settings that come with the attachment of a stream.
#[derive(Debug)]
pub struct AttachStreamRequest {
    /// The first prompt of the session.
    pub prompt: Option<String>,
    /// Cap on the tokens that come out per second.
    pub max_output_tokens_per_second: Option<u32>,
    pub clip_mode: Option<ClipConfig>,
    /// Tags the events of the session.
    pub index_name: Option<String>,
}

/// What a chunk cost is added to what the run cost.
pub proof fn costs_add_up(m: TokenMetrics, usage: TokenUsage, latency_ms: u64)
    requires
        m.prompt_tokens + usage.prompt_tokens <= u32::MAX,
        m.completion_tokens + usage.completion_tokens <= u32::MAX,
        m.thinking_tokens + usage.thinking_tokens <= u32::MAX,
        m.total_tokens + usage.total_tokens <= u32::MAX,
        m.inference_latency_ms + latency_ms <= u64::MAX,
        m.chunks_analyzed < usize::MAX,
    ensures
        ({
            let after = m.with_chunk(usage, latency_ms);
            &&& after.prompt_tokens == m.prompt_tokens + usage.prompt_tokens
            &&& after.completion_tokens == m.completion_tokens + usage.completion_tokens
            &&& after.thinking_tokens == m.thinking_tokens + usage.thinking_tokens
            &&& after.total_tokens == m.total_tokens + usage.total_tokens
            &&& after.inference_latency_ms == m.inference_latency_ms + latency_ms
            &&& after.chunks_analyzed == m.chunks_analyzed + 1
        }),
{
}

/// A policy is known by its name in either case; adapting to the source is the
/// usual one.
pub proof fn policies_are_known_by_name(raw: Seq<char>)
    ensures
        sampling_policy_of(None) == Some(SamplingPolicy::SourceFpsAdaptive),
        lowered(raw) == "fixed"@ <==> sampling_policy_of(Some(raw)) == Some(SamplingPolicy::Fixed),
        lowered(raw) == "source_fps_adaptive"@ || lowered(raw) == "adaptive"@
            <==> sampling_policy_of(Some(raw)) == Some(SamplingPolicy::SourceFpsAdaptive),
{
    reveal_strlit("fixed");
    reveal_strlit("source_fps_adaptive");
    reveal_strlit("adaptive");
    assert("fixed"@.len() == 5);
    assert("source_fps_adaptive"@.len() == 19);
    assert("adaptive"@.len() == 8);
}

} // verus!
