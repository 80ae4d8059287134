//! Analysis of frames: what a request asks for, and what the log and the reply
//! tell of it.

use vstd::prelude::*;
use vstd::utf8::{decode_utf8, encode_utf8, encode_utf8_decode_utf8, is_char_boundary};

use crate::frame_rows::{marker_fields, rows_of, LabeledFrame, RowContext, RowView};
use crate::ieee::Single;
use crate::json::{
    fraction_view, jsons_of, list_of, number_view, opt_json, with_field, Fields, Json, JsonView,
};
use crate::models::{
    sampling_policy_of, AnalyzeFrameInput, AnalyzeFrameMetadata, AnalyzeFramesRequest,
    AnalyzeMarker, SamplingPolicy,
};
use crate::response::{invalid_field, invalid_field_view, ok, ok_view, Reply, ReplyView};
use crate::runs::{
    change_refusal, check_change, opt_snapshot, EventAppend, Plan, PlanView, RunSnapshot,
    SnapshotView,
};
use crate::semantic::{
    build_marker_lifecycle, lifecycle, semantic_marker_to_api_marker, MarkerConfig, MarkerView,
    RatedSegment,
};
use crate::signals::{
    allowed_rate, is_normalized, is_rate, kept_coordinates, load_decoded_signals_from_events, loaded,
    normalized, rate_from, sample_rate, FrameSignal, SampleRate, IMAGE_COORDINATE_SCHEMA,
};
use crate::sort::views;
use crate::text::{opt_text, owned};
use crate::timeline::{event_views, EventView, TimelineEvent};

verus! {

/// What is said of the contents of analyze requests in replies.
pub const ANALYZE_CONTEXT: &'static str = "invalid analyze payload";

/// What an analyze request asks for besides its frames.
#[derive(Debug)]
pub struct AnalyzeParams {
    pub mode: String,
    pub model: String,
    pub window_size: usize,
    pub segment_ms: u64,
}

/// How many frames are judged together.
pub open spec fn window_of(window_size: Option<usize>) -> usize {
    match window_size {
        Some(n) => n,
        None => 16,
    }
}

/// How long a segment is.
pub open spec fn segment_of(segment_ms: Option<u64>) -> u64 {
    match segment_ms {
        Some(n) => n,
        None => 250,
    }
}

/// The refusal of an analyze request, where it is refused before its frames are
/// looked at. `mode` and `model` are what those of the request were found to
/// be.
pub open spec fn analyze_refusal(
    request_id: Seq<char>,
    run_id: Seq<char>,
    snapshot: Option<SnapshotView>,
    principal: Seq<char>,
    payload: AnalyzeFramesRequest,
    mode: Result<String, String>,
    model: Result<String, String>,
) -> Option<ReplyView> {
    let c = ANALYZE_CONTEXT@;
    let run = change_refusal(
        request_id,
        "invalid analyze request"@,
        "cannot analyze terminal run"@,
        run_id,
        snapshot,
        principal,
    );
    if run is Some {
        run
    } else if mode is Err {
        Some(invalid_field_view(request_id, c, "mode"@, mode->Err_0@))
    } else if model is Err {
        Some(invalid_field_view(request_id, c, "model"@, model->Err_0@))
    } else if !(2 <= window_of(payload.window_size) <= 256) {
        Some(
            invalid_field_view(request_id, c, "window_size"@, "window_size must be in [2, 256]"@),
        )
    } else if !(50 <= segment_of(payload.segment_ms) <= 60_000) {
        Some(
            invalid_field_view(request_id, c, "segment_ms"@, "segment_ms must be in [50, 60000]"@),
        )
    } else {
        None
    }
}

/// What an analyze request asks for besides its frames, where it is not
/// refused.
pub fn check_analyze(
    request_id: &str,
    run_id: &str,
    snapshot: &Option<RunSnapshot>,
    principal: &str,
    payload: &AnalyzeFramesRequest,
    mode: &Result<String, String>,
    model: &Result<String, String>,
) -> (r: Result<AnalyzeParams, Reply>)
    ensures
        ({
            let refusal = analyze_refusal(
                request_id@,
                run_id@,
                opt_snapshot(*snapshot),
                principal@,
                *payload,
                *mode,
                *model,
            );
            match r {
                Ok(p) => {
                    &&& refusal is None
                    &&& p.mode@ == mode->Ok_0@
                    &&& p.model@ == model->Ok_0@
                    &&& p.window_size == window_of(payload.window_size)
                    &&& p.segment_ms == segment_of(payload.segment_ms)
                },
                Err(reply) => refusal == Some(reply@),
            }
        }),
{
    match check_change(
        request_id,
        "invalid analyze request",
        "cannot analyze terminal run",
        run_id,
        snapshot,
        principal,
    ) {
        Ok(_) => {},
        Err(reply) => return Err(reply),
    }
    let mode = match mode {
        Ok(m) => owned(m.as_str()),
        Err(problem) => return Err(
            invalid_field(request_id, ANALYZE_CONTEXT, "mode", owned(problem.as_str())),
        ),
    };
    let model = match model {
        Ok(m) => owned(m.as_str()),
        Err(problem) => return Err(
            invalid_field(request_id, ANALYZE_CONTEXT, "model", owned(problem.as_str())),
        ),
    };
    let window_size: usize = match payload.window_size {
        Some(n) => n,
        None => 16,
    };
    if window_size < 2 || window_size > 256 {
        return Err(
            invalid_field(
                request_id,
                ANALYZE_CONTEXT,
                "window_size",
                owned("window_size must be in [2, 256]"),
            ),
        );
    }
    let segment_ms: u64 = match payload.segment_ms {
        Some(n) => n,
        None => 250,
    };
    if segment_ms < 50 || segment_ms > 60_000 {
        return Err(
            invalid_field(
                request_id,
                ANALYZE_CONTEXT,
                "segment_ms",
                owned("segment_ms must be in [50, 60000]"),
            ),
        );
    }
    Ok(AnalyzeParams { mode, model, window_size, segment_ms })
}

// ---------------------------------------------------------------- frames
/// The frames that are analyzed, and how they were sampled.
#[derive(Debug)]
pub struct AnalyzeInput {
    pub signals: Vec<FrameSignal>,
    pub sampling_policy: SamplingPolicy,
    pub sample_rate: SampleRate,
    /// Where the frames lie in the images of their source, where that is known.
    pub coordinates: Option<Json>,
}

/// The frames that are analyzed, and how they were sampled.
pub ghost struct AnalyzeInputView {
    pub signals: Seq<FrameSignal>,
    pub sampling_policy: SamplingPolicy,
    pub sample_rate: SampleRate,
    pub coordinates: Option<JsonView>,
}

impl View for AnalyzeInput {
    type V = AnalyzeInputView;

    open spec fn view(&self) -> AnalyzeInputView {
        AnalyzeInputView {
            signals: self.signals@,
            sampling_policy: self.sampling_policy,
            sample_rate: self.sample_rate,
            coordinates: opt_json(self.coordinates),
        }
    }
}

/// A frame as a request tells of it.
pub open spec fn told_signal(f: AnalyzeFrameInput) -> FrameSignal {
    FrameSignal {
        frame_index: f.frame_index,
        pts_ms: f.pts_ms,
        perceptual_hash: f.perceptual_hash,
        luma_mean: f.luma_mean,
        flicker_score: f.flicker_score,
        ghosting_score: f.ghosting_score,
        noise_variance_score: f.noise_variance_score,
    }
}

/// The frames as a request tells of them.
pub open spec fn told_signals(frames: Seq<AnalyzeFrameInput>) -> Seq<FrameSignal> {
    frames.map_values(|f: AnalyzeFrameInput| told_signal(f))
}

/// The measurements of all frames lie between zero and one.
pub open spec fn all_normalized(frames: Seq<AnalyzeFrameInput>) -> bool {
    forall|i: int|
        0 <= i < frames.len() ==> normalized(
            (#[trigger] frames[i]).luma_mean,
            frames[i].flicker_score,
            frames[i].ghosting_score,
            frames[i].noise_variance_score,
        )
}

/// What is wrong with the frames of a request: the field and the problem.
pub open spec fn frames_problem(payload: AnalyzeFramesRequest) -> Option<(Seq<char>, Seq<char>)> {
    let policy = sampling_policy_of(opt_text(payload.sampling_policy));
    if payload.frames@.len() > 4096 {
        Some(("frames"@, "frames length must be in [1, 4096]"@))
    } else if !all_normalized(payload.frames@) {
        Some(("frames"@, "frame scores/luma must be normalized to [0.0, 1.0]"@))
    } else if policy is None {
        Some(
            ("sampling_policy"@, "sampling_policy must be one of: source_fps_adaptive, fixed"@),
        )
    } else if policy == Some(SamplingPolicy::Fixed) && payload.fixed_fps is None {
        Some(("fixed_fps"@, "fixed_fps is required when sampling_policy=fixed"@))
    } else if policy == Some(SamplingPolicy::Fixed) && !is_rate(payload.fixed_fps->0) {
        Some(("fixed_fps"@, "fixed_fps must be in [0.2, 120.0]"@))
    } else {
        None
    }
}

/// The rate of sampling that is written down in a request.
pub open spec fn given_rate(payload: AnalyzeFramesRequest) -> Option<Single> {
    if sampling_policy_of(opt_text(payload.sampling_policy)) == Some(SamplingPolicy::Fixed) {
        payload.fixed_fps
    } else {
        None
    }
}

/// The frames that are analyzed, or the refusal: those of the request, or,
/// where it has none, those that the last ingest left in the log. `readable`
/// says whether the coordinates that the ingest left are those of frames.
pub open spec fn input_for(
    request_id: Seq<char>,
    payload: AnalyzeFramesRequest,
    events: Seq<EventView>,
    readable: bool,
) -> Result<AnalyzeInputView, ReplyView> {
    let c = ANALYZE_CONTEXT@;
    if payload.frames@.len() == 0 {
        match loaded(events, readable) {
            Ok(d) => Ok(
                AnalyzeInputView {
                    signals: d.signals,
                    sampling_policy: d.sampling_policy,
                    sample_rate: d.sample_rate,
                    coordinates: d.coordinates,
                },
            ),
            Err(problem) => Err(invalid_field_view(request_id, c, "frames"@, problem)),
        }
    } else {
        match frames_problem(payload) {
            Some((field, problem)) => Err(invalid_field_view(request_id, c, field, problem)),
            None => {
                let signals = told_signals(payload.frames@);
                Ok(
                    AnalyzeInputView {
                        signals,
                        sampling_policy: sampling_policy_of(opt_text(payload.sampling_policy))->0,
                        sample_rate: rate_from(given_rate(payload), signals),
                        coordinates: None,
                    },
                )
            },
        }
    }
}

fn refused(request_id: &str, field: &'static str, problem: &str) -> (r: Reply)
    ensures
        r@ == invalid_field_view(request_id@, ANALYZE_CONTEXT@, field@, problem@),
{
    invalid_field(request_id, ANALYZE_CONTEXT, field, owned(problem))
}

fn signals_told(frames: &Vec<AnalyzeFrameInput>) -> (r: Option<Vec<FrameSignal>>)
    ensures
        match r {
            Some(list) => all_normalized(frames@) && list@ == told_signals(frames@),
            None => !all_normalized(frames@),
        },
{
    let ghost all = told_signals(frames@);
    let mut out: Vec<FrameSignal> = Vec::new();
    let mut i: usize = 0;
    assert(all.take(0) =~= Seq::empty());
    while i < frames.len()
        invariant
            all == told_signals(frames@),
            i <= frames@.len(),
            out@ == all.take(i as int),
            forall|k: int|
                0 <= k < i ==> normalized(
                    (#[trigger] frames@[k]).luma_mean,
                    frames@[k].flicker_score,
                    frames@[k].ghosting_score,
                    frames@[k].noise_variance_score,
                ),
        decreases frames@.len() - i,
    {
        let f = &frames[i];
        if !is_normalized(
            f.luma_mean,
            f.flicker_score,
            f.ghosting_score,
            f.noise_variance_score,
        ) {
            assert(!normalized(
                frames@[i as int].luma_mean,
                frames@[i as int].flicker_score,
                frames@[i as int].ghosting_score,
                frames@[i as int].noise_variance_score,
            ));
            return None;
        }
        out.push(
            FrameSignal {
                frame_index: f.frame_index,
                pts_ms: f.pts_ms,
                perceptual_hash: f.perceptual_hash,
                luma_mean: f.luma_mean,
                flicker_score: f.flicker_score,
                ghosting_score: f.ghosting_score,
                noise_variance_score: f.noise_variance_score,
            },
        );
        assert(all.take(i + 1) =~= all.take(i as int).push(told_signal(frames@[i as int])));
        i += 1;
    }
    assert(all.take(i as int) =~= all);
    Some(out)
}

/// The frames that are analyzed, or the refusal. `events` are those of the run,
/// and `readable` says whether the coordinates that its last ingest left are
/// those of frames.
pub fn analyze_input(
    request_id: &str,
    payload: &AnalyzeFramesRequest,
    events: &Vec<TimelineEvent>,
    readable: bool,
) -> (r: Result<AnalyzeInput, Reply>)
    ensures
        ({
            let want = input_for(request_id@, *payload, event_views(events@), readable);
            match r {
                Ok(input) => want == Ok::<AnalyzeInputView, ReplyView>(input@),
                Err(reply) => want == Err::<AnalyzeInputView, ReplyView>(reply@),
            }
        }),
{
    if payload.frames.len() == 0 {
        return match load_decoded_signals_from_events(events, readable) {
            Ok(d) => Ok(
                AnalyzeInput {
                    signals: d.signals,
                    sampling_policy: d.sampling_policy,
                    sample_rate: d.sample_rate,
                    coordinates: d.coordinates,
                },
            ),
            Err(problem) => Err(refused(request_id, "frames", problem.as_str())),
        };
    }
    if payload.frames.len() > 4096 {
        return Err(refused(request_id, "frames", "frames length must be in [1, 4096]"));
    }
    let signals = match signals_told(&payload.frames) {
        Some(list) => list,
        None => return Err(
            refused(
                request_id,
                "frames",
                "frame scores/luma must be normalized to [0.0, 1.0]",
            ),
        ),
    };
    let named = match &payload.sampling_policy {
        Some(s) => SamplingPolicy::parse(Some(s.as_str())),
        None => SamplingPolicy::parse(None),
    };
    let sampling_policy = match named {
        Ok(p) => p,
        Err(problem) => return Err(refused(request_id, "sampling_policy", problem)),
    };
    let given = if sampling_policy == SamplingPolicy::Fixed {
        match payload.fixed_fps {
            None => return Err(
                refused(
                    request_id,
                    "fixed_fps",
                    "fixed_fps is required when sampling_policy=fixed",
                ),
            ),
            Some(fps) => {
                if !allowed_rate(fps) {
                    return Err(
                        refused(request_id, "fixed_fps", "fixed_fps must be in [0.2, 120.0]"),
                    );
                }
                Some(fps)
            },
        }
    } else {
        None
    };
    let rate = sample_rate(given, &signals);
    Ok(AnalyzeInput { signals, sampling_policy, sample_rate: rate, coordinates: None })
}

// ----------------------------------------------------------------- reply
/// The trace that a request belongs to: the one that it names, or one named
/// after the request. `tail` is what follows the first four bytes of its id.
pub open spec fn trace_of(given: Option<Seq<char>>, tail: Seq<char>) -> Seq<char> {
    match given {
        Some(t) => t,
        None => "trace-"@ + tail,
    }
}

/// The trace that a request belongs to.
pub fn trace_id_for(given: &Option<String>, request_id: &str) -> (r: String)
    requires
        given is None ==> is_char_boundary(encode_utf8(request_id@), 4),
    ensures
        r@ == trace_of(
            opt_text(*given),
            decode_utf8(encode_utf8(request_id@).skip(4)),
        ),
{
    match given {
        Some(t) => owned(t.as_str()),
        None => {
            let mut out = owned("trace-");
            let (_, tail) = request_id.split_at(4);
            proof {
                encode_utf8_decode_utf8(tail@);
                assert(encode_utf8(tail@) =~= encode_utf8(request_id@).skip(4));
            }
            out.push_str(tail);
            out
        },
    }
}

/// The stream that a request names.
pub open spec fn stream_of(given: Option<Seq<char>>) -> Seq<char> {
    match given {
        Some(s) => s,
        None => "stream-0"@,
    }
}

/// The stream that a request names.
pub fn stream_id_for(given: &Option<String>) -> (r: String)
    ensures
        r@ == stream_of(opt_text(*given)),
{
    match given {
        Some(s) => owned(s.as_str()),
        None => owned("stream-0"),
    }
}

/// The rate at which frames were sampled: the one that is given, `spaced_fps`
/// where the spacing of the frames tells it, and once a second where nothing
/// does.
pub open spec fn rate_used(rate: SampleRate, spaced_fps: Single) -> Single {
    match rate {
        SampleRate::Given(fps) => fps,
        SampleRate::Spaced(_) => spaced_fps,
        SampleRate::Unknown => Single { bits: 0x3f80_0000 },
    }
}

/// The rows of a request have this in common.
pub open spec fn is_context(
    c: RowContext,
    request_id: Seq<char>,
    run_id: Seq<char>,
    payload: AnalyzeFramesRequest,
    params: AnalyzeParams,
    input: AnalyzeInputView,
    spaced_fps: Single,
) -> bool {
    &&& c.run_id@ == run_id
    &&& c.stream_id@ == stream_of(opt_text(payload.stream_id))
    &&& c.mode@ == params.mode@
    &&& c.model@ == params.model@
    &&& c.sampling_policy == input.sampling_policy
    &&& c.sample_fps == rate_used(input.sample_rate, spaced_fps)
    &&& c.segment_ms == params.segment_ms
    &&& c.request_id@ == request_id
    &&& c.trace_id@ == trace_of(
        opt_text(payload.trace_id),
        decode_utf8(encode_utf8(request_id).skip(4)),
    )
    &&& opt_json(c.coordinates) == input.coordinates
}

/// What the rows of a request have in common. `spaced_fps` is the rate that the
/// spacing of the frames tells, where it tells one.
pub fn analyze_context(
    request_id: &str,
    run_id: &str,
    payload: &AnalyzeFramesRequest,
    params: &AnalyzeParams,
    input: &AnalyzeInput,
    spaced_fps: Single,
) -> (c: RowContext)
    requires
        payload.trace_id is None ==> is_char_boundary(encode_utf8(request_id@), 4),
    ensures
        is_context(c, request_id@, run_id@, *payload, *params, input@, spaced_fps),
{
    RowContext {
        run_id: owned(run_id),
        stream_id: stream_id_for(&payload.stream_id),
        mode: owned(params.mode.as_str()),
        model: owned(params.model.as_str()),
        sampling_policy: input.sampling_policy,
        sample_fps: match input.sample_rate {
            SampleRate::Given(fps) => fps,
            SampleRate::Spaced(_) => spaced_fps,
            SampleRate::Unknown => Single { bits: 0x3f80_0000 },
        },
        segment_ms: params.segment_ms,
        request_id: owned(request_id),
        trace_id: trace_id_for(&payload.trace_id, request_id),
        coordinates: match &input.coordinates {
            Some(c) => Some(c.copy()),
            None => None,
        },
    }
}

/// A marker as the log keeps it, with the index that it belongs to, where there
/// is one.
pub open spec fn logged_marker(m: MarkerView, index_name: Option<Seq<char>>) -> JsonView {
    match index_name {
        Some(name) => JsonView::Object(
            with_field(marker_fields(m), "index_name"@, JsonView::Text(name)),
        ),
        None => JsonView::Object(marker_fields(m)),
    }
}

/// The events on some markers.
pub open spec fn marker_events(
    markers: Seq<MarkerView>,
    index_name: Option<Seq<char>>,
) -> Seq<(Seq<char>, JsonView)> {
    markers.map_values(
        |m: MarkerView| ("marker_emitted"@, logged_marker(m, index_name)),
    )
}

/// Appends the events on some markers.
pub fn append_markers(
    appends: &mut Vec<EventAppend>,
    markers: &Vec<AnalyzeMarker>,
    index_name: &Option<String>,
)
    ensures
        views(final(appends)@) == views(old(appends)@) + marker_events(
            views(markers@),
            opt_text(*index_name),
        ),
{
    let ghost start = views(appends@);
    let ghost all = marker_events(views(markers@), opt_text(*index_name));
    let mut i: usize = 0;
    assert(start + all.take(0) =~= start);
    while i < markers.len()
        invariant
            all == marker_events(views(markers@), opt_text(*index_name)),
            i <= markers@.len(),
            views(appends@) == start + all.take(i as int),
        decreases markers@.len() - i,
    {
        let mut fields = markers[i].to_fields();
        match index_name {
            Some(name) => fields.set("index_name", Json::text(name.as_str())),
            None => {},
        }
        let ghost before = views(appends@);
        appends.push(EventAppend { kind: "marker_emitted", payload: fields.object() });
        assert(views(appends@) =~= before.push(all[i as int]));
        assert(start + all.take(i + 1) =~= before.push(all[i as int]));
        i += 1;
    }
    assert(all.take(i as int) =~= all);
}

/// The markers of some runs of frames, as the API shows them.
pub fn api_markers(
    run_id: &str,
    stream_id: &str,
    rated: &Vec<RatedSegment>,
    config: &MarkerConfig,
) -> (r: Vec<AnalyzeMarker>)
    ensures
        views(r@) == lifecycle(
            run_id@,
            stream_id@,
            views(rated@),
            *config,
            rated@.len() as int,
        ),
{
    let markers = build_marker_lifecycle(run_id, stream_id, rated, config);
    let ghost all = views(markers@);
    let mut out: Vec<AnalyzeMarker> = Vec::new();
    assert(views(out@) =~= all.take(0));
    for m in iter: markers
        invariant
            all == views(markers@),
            iter.seq() == markers@,
            views(out@) == all.take(iter.index()),
    {
        let ghost before = views(out@);
        let ghost mv = m@;
        out.push(semantic_marker_to_api_marker(m));
        assert(views(out@) =~= before.push(mv));
        assert(all.take(iter.index() + 1) =~= before.push(mv));
    }
    assert(views(out@) =~= all);
    out
}

/// The event on an analysis.
pub open spec fn analysis_payload(
    c: RowContext,
    frames: nat,
    window_size: usize,
    markers: nat,
) -> JsonView {
    JsonView::Object(
        seq![
            ("request_id"@, JsonView::Text(c.request_id@)),
            ("stream_id"@, JsonView::Text(c.stream_id@)),
            ("frames"@, number_view(frames as u64)),
            ("window_size"@, number_view(window_size as u64)),
            ("segment_ms"@, number_view(c.segment_ms)),
            ("sampling_policy"@, JsonView::Text(c.sampling_policy.name())),
            ("sample_fps"@, fraction_view(c.sample_fps.widened())),
            ("mode"@, JsonView::Text(c.mode@)),
            ("model"@, JsonView::Text(c.model@)),
            ("markers"@, number_view(markers as u64)),
        ],
    )
}

/// What an analysis leads to: an event for each marker, one for the whole, and
/// the rows and markers in the reply.
pub open spec fn analyze_plan(
    c: RowContext,
    window_size: usize,
    rows: Seq<RowView>,
    markers: Seq<MarkerView>,
) -> PlanView {
    PlanView {
        appends: marker_events(markers, None).push(
            ("analysis_generated"@, analysis_payload(c, rows.len(), window_size, markers.len())),
        ),
        reply: ok_view(
            JsonView::Object(
                seq![
                    ("request_id"@, JsonView::Text(c.request_id@)),
                    ("run_id"@, JsonView::Text(c.run_id@)),
                    ("generated"@, number_view(rows.len() as u64)),
                    ("metadata"@, JsonView::Array(jsons_of::<AnalyzeFrameMetadata>(rows))),
                    ("markers"@, JsonView::Array(jsons_of::<AnalyzeMarker>(markers))),
                ],
            ),
        ),
    }
}

/// The usual settings of markers.
pub open spec fn usual_markers() -> MarkerConfig {
    MarkerConfig {
        correction_window_frames: 3,
        provisional_confidence_threshold: Single { bits: 0x3f33_3333 },
    }
}

/// Tells of analyzed frames. `rows` tell of the frames, and `rated` are the
/// runs that they form, with how certain each is.
pub fn analyze_run(
    context: &RowContext,
    window_size: usize,
    rows: &Vec<AnalyzeFrameMetadata>,
    rated: &Vec<RatedSegment>,
) -> (r: Plan)
    ensures
        r@ == analyze_plan(
            *context,
            window_size,
            views(rows@),
            lifecycle(
                context.run_id@,
                context.stream_id@,
                views(rated@),
                usual_markers(),
                rated@.len() as int,
            ),
        ),
{
    let config = MarkerConfig::default();
    assert(config == usual_markers());
    let markers = api_markers(
        context.run_id.as_str(),
        context.stream_id.as_str(),
        rated,
        &config,
    );
    let ghost found = views(markers@);
    let mut appends: Vec<EventAppend> = Vec::new();
    assert(views(appends@) =~= Seq::empty());
    append_markers(&mut appends, &markers, &None);
    assert(views(appends@) =~= marker_events(found, None));
    let mut e = Fields::new();
    e.put("request_id", Json::text(context.request_id.as_str()));
    e.put("stream_id", Json::text(context.stream_id.as_str()));
    e.put("frames", Json::number(rows.len() as u64));
    e.put("window_size", Json::number(window_size as u64));
    e.put("segment_ms", Json::number(context.segment_ms));
    e.put("sampling_policy", Json::text(context.sampling_policy.as_str()));
    e.put("sample_fps", Json::single(context.sample_fps));
    e.put("mode", Json::text(context.mode.as_str()));
    e.put("model", Json::text(context.model.as_str()));
    e.put("markers", Json::number(markers.len() as u64));
    assert(e@ =~= analysis_payload(
        *context,
        rows@.len(),
        window_size,
        found.len(),
    )->Object_0);
    let ghost before = views(appends@);
    let ghost event = ("analysis_generated"@, JsonView::Object(e@));
    appends.push(EventAppend { kind: "analysis_generated", payload: e.object() });
    assert(views(appends@) =~= before.push(event));
    let mut o = Fields::new();
    o.put("request_id", Json::text(context.request_id.as_str()));
    o.put("run_id", Json::text(context.run_id.as_str()));
    o.put("generated", Json::number(rows.len() as u64));
    o.put("metadata", list_of(rows));
    o.put("markers", list_of(&markers));
    let ghost want = analyze_plan(*context, window_size, views(rows@), found);
    assert(o@ =~= want.reply.body->Object_0);
    Plan { appends, reply: ok(o.object()) }
}

/// The rows of an analysis carry the coordinates of the frames, and name their
/// schema, exactly where the ingest that the frames come from left coordinates.
pub proof fn rows_carry_the_coordinates(
    c: RowContext,
    request_id: Seq<char>,
    run_id: Seq<char>,
    payload: AnalyzeFramesRequest,
    params: AnalyzeParams,
    events: Seq<EventView>,
    input: AnalyzeInputView,
    spaced_fps: Single,
    frames: Seq<LabeledFrame>,
    i: int,
)
    requires
        payload.frames@.len() == 0,
        input_for(request_id, payload, events, true) == Ok::<AnalyzeInputView, ReplyView>(input),
        is_context(c, request_id, run_id, payload, params, input, spaced_fps),
        0 <= i < frames.len(),
    ensures
        ({
            let row = rows_of(c, frames, None, false, None)[i];
            &&& row.coordinates == kept_coordinates(events)
            &&& row.coordinate_schema == match kept_coordinates(events) {
                Some(_) => Some(IMAGE_COORDINATE_SCHEMA@),
                None => None,
            }
        }),
{
}

/// The frames that are analyzed have their measurements between zero and one.
pub proof fn analyzed_frames_are_normalized(
    request_id: Seq<char>,
    payload: AnalyzeFramesRequest,
    events: Seq<EventView>,
    readable: bool,
    input: AnalyzeInputView,
    i: int,
)
    requires
        payload.frames@.len() > 0,
        input_for(request_id, payload, events, readable) == Ok::<AnalyzeInputView, ReplyView>(input),
        0 <= i < input.signals.len(),
    ensures
        normalized(
            input.signals[i].luma_mean,
            input.signals[i].flicker_score,
            input.signals[i].ghosting_score,
            input.signals[i].noise_variance_score,
        ),
        input.signals.len() == payload.frames@.len() <= 4096,
{
    assert(input.signals[i] == told_signal(payload.frames@[i]));
}

/// An analysis is accepted exactly on a run that is the caller's and still goes
/// on, in a known mode, with a known model, a window of two to two hundred and
/// fifty-six frames and segments of fifty milliseconds to a minute.
pub proof fn analyses_keep_their_bounds(
    request_id: Seq<char>,
    run_id: Seq<char>,
    snapshot: Option<SnapshotView>,
    principal: Seq<char>,
    payload: AnalyzeFramesRequest,
    mode: Result<String, String>,
    model: Result<String, String>,
)
    ensures
        analyze_refusal(request_id, run_id, snapshot, principal, payload, mode, model) is None <==> {
            &&& crate::ids::valid_run_id(run_id)
            &&& crate::runs::visible(snapshot, principal) && !snapshot->0.terminal
            &&& mode is Ok
            &&& model is Ok
            &&& payload.window_size matches Some(n) ==> 2 <= n <= 256
            &&& payload.segment_ms matches Some(n) ==> 50 <= n <= 60 * 1000
        },
        payload.window_size is None ==> window_of(payload.window_size) == 16,
        payload.window_size matches Some(n) ==> window_of(payload.window_size) == n,
        payload.segment_ms is None ==> segment_of(payload.segment_ms) == 250,
        payload.segment_ms matches Some(n) ==> segment_of(payload.segment_ms) == n,
{
}

/// Frames that are told with the request are taken exactly if there are at most
/// four thousand and ninety-six, each with normalized scores, under a known
/// policy, with a rate where the policy is a fixed one; each is then analyzed as
/// it was told.
pub proof fn told_frames_are_analyzed(
    request_id: Seq<char>,
    payload: AnalyzeFramesRequest,
    events: Seq<EventView>,
    readable: bool,
)
    requires
        payload.frames@.len() > 0,
    ensures
        ({
            let input = input_for(request_id, payload, events, readable);
            let policy = sampling_policy_of(opt_text(payload.sampling_policy));
            &&& input is Ok <==> {
                &&& payload.frames@.len() <= 4096
                &&& forall|i: int|
                    0 <= i < payload.frames@.len() ==> normalized(
                        (#[trigger] payload.frames@[i]).luma_mean,
                        payload.frames@[i].flicker_score,
                        payload.frames@[i].ghosting_score,
                        payload.frames@[i].noise_variance_score,
                    )
                &&& policy is Some
                &&& policy == Some(SamplingPolicy::Fixed) ==> payload.fixed_fps is Some && is_rate(
                    payload.fixed_fps->0,
                )
            }
            &&& input matches Ok(v) ==> {
                &&& Some(v.sampling_policy) == policy
                &&& v.coordinates is None
                &&& v.signals.len() == payload.frames@.len()
                &&& forall|i: int| #![trigger v.signals[i]]
                    0 <= i < v.signals.len() ==> {
                        let f = payload.frames@[i];
                        let s = v.signals[i];
                        &&& s.frame_index == f.frame_index
                        &&& s.pts_ms == f.pts_ms
                        &&& s.perceptual_hash == f.perceptual_hash
                        &&& s.luma_mean == f.luma_mean
                        &&& s.flicker_score == f.flicker_score
                        &&& s.ghosting_score == f.ghosting_score
                        &&& s.noise_variance_score == f.noise_variance_score
                    }
            }
        }),
{
}

/// An analysis logs each marker, in order, and then how it was made; its reply
/// tells of every frame and every marker.
pub proof fn analyses_are_logged_and_told(
    c: RowContext,
    window_size: usize,
    rows: Seq<RowView>,
    markers: Seq<MarkerView>,
)
    ensures
        ({
            let plan = analyze_plan(c, window_size, rows, markers);
            let last = plan.appends.last();
            &&& plan.appends.len() == markers.len() + 1
            &&& forall|i: int| #![trigger plan.appends[i]]
                0 <= i < markers.len() ==> plan.appends[i] == (
                    "marker_emitted"@,
                    JsonView::Object(marker_fields(markers[i])),
                )
            &&& last.0 == "analysis_generated"@
            &&& last.1.text_at("request_id"@) == Some(c.request_id@)
            &&& last.1.text_at("stream_id"@) == Some(c.stream_id@)
            &&& last.1.unsigned_at("frames"@) == Some(rows.len() as u64)
            &&& last.1.unsigned_at("window_size"@) == Some(window_size as u64)
            &&& last.1.unsigned_at("segment_ms"@) == Some(c.segment_ms)
            &&& last.1.text_at("mode"@) == Some(c.mode@)
            &&& last.1.text_at("model"@) == Some(c.model@)
            &&& last.1.unsigned_at("markers"@) == Some(markers.len() as u64)
            &&& plan.reply.status == 200
            &&& plan.reply.body.text_at("run_id"@) == Some(c.run_id@)
            &&& plan.reply.body.unsigned_at("generated"@) == Some(rows.len() as u64)
            &&& plan.reply.body.items_at("metadata"@) is Some
            &&& plan.reply.body.items_at("metadata"@)->0.len() == rows.len()
            &&& plan.reply.body.items_at("markers"@) is Some
            &&& plan.reply.body.items_at("markers"@)->0.len() == markers.len()
        }),
{
    reveal_strlit("request_id");
    reveal_strlit("stream_id");
    reveal_strlit("frames");
    reveal_strlit("window_size");
    reveal_strlit("segment_ms");
    reveal_strlit("sampling_policy");
    reveal_strlit("sample_fps");
    reveal_strlit("mode");
    reveal_strlit("model");
    reveal_strlit("markers");
    reveal_strlit("run_id");
    reveal_strlit("generated");
    reveal_strlit("metadata");
    assert("request_id"@.len() == 10);
    assert("stream_id"@.len() == 9);
    assert("frames"@.len() == 6);
    assert("window_size"@.len() == 11);
    assert("segment_ms"@.len() == 10);
    assert("sampling_policy"@.len() == 15);
    assert("sample_fps"@.len() == 10);
    assert("mode"@.len() == 4);
    assert("model"@.len() == 5);
    assert("markers"@.len() == 7);
    assert("run_id"@.len() == 6);
    assert("generated"@.len() == 9);
    assert("metadata"@.len() == 8);
    assert("request_id"@[0] == 'r' && "segment_ms"@[0] == 's');
    assert("request_id"@[0] == 'r' && "sample_fps"@[0] == 's');
    assert("segment_ms"@[1] == 'e' && "sample_fps"@[1] == 'a');
    assert("stream_id"@[0] == 's' && "generated"@[0] == 'g');
    assert("frames"@[0] == 'f' && "run_id"@[0] == 'r');
    let fields = analysis_payload(c, rows.len(), window_size, markers.len())->Object_0;
    crate::json::field_is_found(fields, 0);
    crate::json::field_is_found(fields, 1);
    crate::json::field_is_found(fields, 2);
    crate::json::field_is_found(fields, 3);
    crate::json::field_is_found(fields, 4);
    crate::json::field_is_found(fields, 7);
    crate::json::field_is_found(fields, 8);
    crate::json::field_is_found(fields, 9);
    let body = analyze_plan(c, window_size, rows, markers).reply.body->Object_0;
    crate::json::field_is_found(body, 1);
    crate::json::field_is_found(body, 2);
    crate::json::field_is_found(body, 3);
    crate::json::field_is_found(body, 4);
}

/// Markers may be corrected three frames on, and are provisional below seven
/// tenths.
pub proof fn usual_markers_wait_three_frames()
    ensures
        usual_markers().correction_window_frames == 3,
        usual_markers().provisional_confidence_threshold == (Single { bits: 0x3f33_3333 }),
{
}

} // verus!
