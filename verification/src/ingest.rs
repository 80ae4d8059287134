//! Ingest: which source a run takes its frames from, and what the log keeps.

use vstd::prelude::*;

use crate::files::{enforce_file_source_visibility, source_refusal, SourceLookup};
use crate::frame_rows::coordinate_fields;
use crate::ieee::{double, narrowing_undoes_widening, Double, Single};
use crate::json::{
    field_is_found, field_is_missed, fraction_view, jsons_of, list_of, number_view, opt_json,
    Fields, Json, JsonView, ToJson,
};
use crate::models::{sampling_policy_names_read_back, sampling_policy_of, SamplingPolicy};
use crate::response::{
    invalid_field, invalid_field_view, ok, ok_view, Reply, ReplyView,
};
use crate::runs::{
    change_refusal, check_change, only_reply, opt_snapshot, reply_only, EventAppend, Plan, PlanView,
    RunSnapshot, SnapshotView,
};
use crate::signals::{
    adaptive_sample_fps, decoded_of, normalized, rate_within_bounds, signal_of, signals_of,
    DecodedView, FrameSignal, SampleRate, IMAGE_COORDINATE_SCHEMA,
};
use crate::sort::views;
use crate::text::{is_blank, opt_text, owned, same, trim, trimmed};

verus! {

/// What is said of ingest requests in replies.
pub const INGEST_CONTEXT: &'static str = "invalid ingest request";

/// A field that an ingest request may have.
pub open spec fn ingest_field(name: Seq<char>) -> bool {
    name == "source_uri"@ || name == "sampling_policy"@ || name == "fixed_fps"@ || name
        == "sample_fps"@ || name == "max_frames"@ || name == "stream_id"@
}

fn is_ingest_field(name: &str) -> (r: bool)
    ensures
        r == ingest_field(name@),
{
    same(name, "source_uri") || same(name, "sampling_policy") || same(name, "fixed_fps") || same(
        name,
        "sample_fps",
    ) || same(name, "max_frames") || same(name, "stream_id")
}

/// The first field that an ingest request may not have.
pub open spec fn stray_field(fields: Seq<(Seq<char>, JsonView)>) -> Option<Seq<char>>
    decreases fields.len(),
{
    if fields.len() == 0 {
        None
    } else {
        match stray_field(fields.drop_last()) {
            Some(name) => Some(name),
            None => if ingest_field(fields.last().0) {
                None
            } else {
                Some(fields.last().0)
            },
        }
    }
}

/// The first field of a value that an ingest request may not have.
pub open spec fn stray_in(payload: JsonView) -> Option<Seq<char>> {
    match payload {
        JsonView::Object(fields) => stray_field(fields),
        _ => None,
    }
}

proof fn lemma_stray_early(fields: Seq<(Seq<char>, JsonView)>, k: int)
    requires
        0 <= k <= fields.len(),
        stray_field(fields.take(k)) is Some,
    ensures
        stray_field(fields) == stray_field(fields.take(k)),
    decreases fields.len(),
{
    if k < fields.len() {
        assert(fields.drop_last().take(k) =~= fields.take(k));
        lemma_stray_early(fields.drop_last(), k);
    } else {
        assert(fields.take(k) =~= fields);
    }
}

fn find_stray(payload: &Json) -> (r: Option<String>)
    ensures
        opt_text(r) == stray_in(payload@),
{
    match payload.fields() {
        None => None,
        Some(fields) => {
            let ghost all = crate::json::field_views(fields@);
            let mut i: usize = 0;
            while i < fields.len()
                invariant
                    all == crate::json::field_views(fields@),
                    payload@ == JsonView::Object(all),
                    i <= fields@.len(),
                    stray_field(all.take(i as int)) is None,
                decreases fields@.len() - i,
            {
                let entry: &(String, Json) = &fields[i];
                assert(all.take(i + 1).drop_last() =~= all.take(i as int));
                assert(all.take(i + 1).last() == (entry.0@, entry.1@));
                if !is_ingest_field(entry.0.as_str()) {
                    proof {
                        lemma_stray_early(all, i + 1);
                    }
                    return Some(owned(entry.0.as_str()));
                }
                i += 1;
            }
            assert(all.take(i as int) =~= all);
            None
        },
    }
}

/// The source that a request names, where it names one that is not blank.
pub open spec fn source_named(payload: JsonView) -> Option<Seq<char>> {
    match payload.text_at("source_uri"@) {
        Some(s) => if trimmed(s).len() == 0 {
            None
        } else {
            Some(trimmed(s))
        },
        None => None,
    }
}

/// The rate of sampling that a request names, where it names one.
pub open spec fn rate_named(payload: JsonView) -> Option<Double> {
    match payload.double_at("sample_fps"@) {
        Some(d) => Some(d),
        None => payload.double_at("fixed_fps"@),
    }
}

/// A rate between one fifth and 120 frames per second.
pub open spec fn is_double_rate(d: Double) -> bool {
    double(0x3fc9_9999_9999_999a).le(d) && d.le(double(0x405e_0000_0000_0000))
}

/// How many frames a request asks for at most.
pub open spec fn frame_limit(payload: JsonView) -> u64 {
    match payload.unsigned_at("max_frames"@) {
        Some(n) => n,
        None => 512,
    }
}

/// The refusal of an ingest request for what it asks, where it is refused.
pub open spec fn ingest_payload_refusal(
    request_id: Seq<char>,
    payload: JsonView,
) -> Option<ReplyView> {
    let c = INGEST_CONTEXT@;
    let policy = sampling_policy_of(payload.text_at("sampling_policy"@));
    let rate = rate_named(payload);
    if stray_in(payload) is Some {
        Some(invalid_field_view(request_id, c, "ingest"@, "unknown field: "@ + stray_in(payload)->0))
    } else if source_named(payload) is None {
        Some(invalid_field_view(request_id, c, "source_uri"@, "source_uri is required"@))
    } else if policy is None {
        Some(
            invalid_field_view(
                request_id,
                c,
                "sampling_policy"@,
                "sampling_policy must be one of: source_fps_adaptive, fixed"@,
            ),
        )
    } else if policy == Some(SamplingPolicy::Fixed) && rate is None {
        Some(
            invalid_field_view(
                request_id,
                c,
                "fixed_fps"@,
                "fixed_fps (or sample_fps) is required when sampling_policy=fixed"@,
            ),
        )
    } else if policy == Some(SamplingPolicy::Fixed) && !is_double_rate(rate->0) {
        Some(
            invalid_field_view(request_id, c, "fixed_fps"@, "fixed_fps must be in [0.2, 120.0]"@),
        )
    } else if !(1 <= frame_limit(payload) <= 500_000) {
        Some(
            invalid_field_view(request_id, c, "max_frames"@, "max_frames must be in [1, 500000]"@),
        )
    } else {
        None
    }
}

/// The refusal of an ingest request, where it is refused before its source is
/// looked at.
pub open spec fn ingest_refusal(
    request_id: Seq<char>,
    run_id: Seq<char>,
    snapshot: Option<SnapshotView>,
    principal: Seq<char>,
    payload: JsonView,
) -> Option<ReplyView> {
    match change_refusal(
        request_id,
        INGEST_CONTEXT@,
        "cannot ingest into terminal run"@,
        run_id,
        snapshot,
        principal,
    ) {
        Some(reply) => Some(reply),
        None => ingest_payload_refusal(request_id, payload),
    }
}

/// What an ingest request asks for.
#[derive(Debug)]
pub struct IngestParams {
    pub source_uri: String,
    pub sampling_policy: SamplingPolicy,
    /// The rate of sampling that is used where the source does not give one.
    pub requested_fps: Double,
    pub max_frames: u64,
    pub stream_id: String,
}

/// The rate of sampling that is used where the source does not give one.
pub open spec fn requested_rate(payload: JsonView) -> Double {
    match rate_named(payload) {
        Some(d) => d,
        None => double(0x4000_0000_0000_0000),
    }
}

/// The stream that a request names.
pub open spec fn stream_named(payload: JsonView) -> Seq<char> {
    match payload.text_at("stream_id"@) {
        Some(s) => s,
        None => "stream-0"@,
    }
}

/// What is asked for is what the request says.
pub open spec fn asks(p: IngestParams, payload: JsonView) -> bool {
    &&& Some(p.source_uri@) == source_named(payload)
    &&& Some(p.sampling_policy) == sampling_policy_of(payload.text_at("sampling_policy"@))
    &&& p.requested_fps == requested_rate(payload)
    &&& p.max_frames == frame_limit(payload)
    &&& p.stream_id@ == stream_named(payload)
}

/// What an ingest request asks for, where it is not refused.
pub fn check_ingest(
    request_id: &str,
    run_id: &str,
    snapshot: &Option<RunSnapshot>,
    principal: &str,
    payload: &Json,
) -> (r: Result<IngestParams, Reply>)
    ensures
        ({
            let refusal = ingest_refusal(
                request_id@,
                run_id@,
                opt_snapshot(*snapshot),
                principal@,
                payload@,
            );
            match r {
                Ok(p) => refusal is None && asks(p, payload@),
                Err(reply) => refusal == Some(reply@),
            }
        }),
{
    match check_change(
        request_id,
        INGEST_CONTEXT,
        "cannot ingest into terminal run",
        run_id,
        snapshot,
        principal,
    ) {
        Ok(_) => {},
        Err(reply) => return Err(reply),
    }
    match find_stray(payload) {
        Some(name) => {
            let mut problem = owned("unknown field: ");
            problem.push_str(name.as_str());
            return Err(invalid_field(request_id, INGEST_CONTEXT, "ingest", problem));
        },
        None => {},
    }
    let named = match payload.text_at("source_uri") {
        Some(s) => if is_blank(s) {
            None
        } else {
            Some(trim(s))
        },
        None => None,
    };
    let source_uri = match named {
        Some(s) => s,
        None => return Err(
            invalid_field(
                request_id,
                INGEST_CONTEXT,
                "source_uri",
                owned("source_uri is required"),
            ),
        ),
    };
    let sampling_policy = match SamplingPolicy::parse(payload.text_at("sampling_policy")) {
        Ok(p) => p,
        Err(problem) => return Err(
            invalid_field(request_id, INGEST_CONTEXT, "sampling_policy", owned(problem)),
        ),
    };
    let rate = match payload.double_at("sample_fps") {
        Some(d) => Some(d),
        None => payload.double_at("fixed_fps"),
    };
    if sampling_policy == SamplingPolicy::Fixed {
        match rate {
            None => return Err(
                invalid_field(
                    request_id,
                    INGEST_CONTEXT,
                    "fixed_fps",
                    owned("fixed_fps (or sample_fps) is required when sampling_policy=fixed"),
                ),
            ),
            Some(d) => if !d.within(
                Double { bits: 0x3fc9_9999_9999_999a },
                Double { bits: 0x405e_0000_0000_0000 },
            ) {
                return Err(
                    invalid_field(
                        request_id,
                        INGEST_CONTEXT,
                        "fixed_fps",
                        owned("fixed_fps must be in [0.2, 120.0]"),
                    ),
                );
            },
        }
    }
    let max_frames: u64 = match payload.unsigned_at("max_frames") {
        Some(n) => n,
        None => 512,
    };
    if max_frames < 1 || max_frames > 500_000 {
        return Err(
            invalid_field(
                request_id,
                INGEST_CONTEXT,
                "max_frames",
                owned("max_frames must be in [1, 500000]"),
            ),
        );
    }
    let stream_id = match payload.text_at("stream_id") {
        Some(s) => owned(s),
        None => owned("stream-0"),
    };
    let requested_fps = match rate {
        Some(d) => d,
        None => Double { bits: 0x4000_0000_0000_0000 },
    };
    Ok(IngestParams { source_uri, sampling_policy, requested_fps, max_frames, stream_id })
}

/// The refusal of a source, where it is refused: it is none that can be read
/// from, or a file that the caller may not see.
pub open spec fn ingest_source_refusal(
    request_id: Seq<char>,
    context: Seq<char>,
    source: Result<SourceLookup, String>,
    principal: Seq<char>,
    prefix: Seq<char>,
) -> Option<ReplyView> {
    match source {
        Err(problem) => Some(invalid_field_view(request_id, context, "source_uri"@, problem@)),
        Ok(lookup) => source_refusal(request_id, context, lookup, principal, prefix),
    }
}

/// Refuses a source that cannot be read from, or that the caller may not see.
pub fn check_source(
    request_id: &str,
    context: &str,
    source: &Result<SourceLookup, String>,
    principal: &str,
    prefix: &str,
) -> (r: Option<Reply>)
    ensures
        match r {
            Some(reply) => ingest_source_refusal(
                request_id@,
                context@,
                *source,
                principal@,
                prefix@,
            ) == Some(reply@),
            None => ingest_source_refusal(
                request_id@,
                context@,
                *source,
                principal@,
                prefix@,
            ) is None,
        },
{
    match source {
        Err(problem) => Some(
            invalid_field(request_id, context, "source_uri", owned(problem.as_str())),
        ),
        Ok(lookup) => enforce_file_source_visibility(
            request_id,
            context,
            lookup,
            principal,
            prefix,
        ),
    }
}

/// The rate of sampling that is used: an adaptive one follows the source, where
/// its rate is known; a fixed one is the one that was asked for.
pub open spec fn effective_rate(
    policy: SamplingPolicy,
    source_fps: Option<Single>,
    requested: Double,
) -> Single {
    match (policy, source_fps) {
        (SamplingPolicy::SourceFpsAdaptive, Some(fps)) => rate_within_bounds(fps),
        _ => requested.narrowed(),
    }
}

/// The rate of sampling that is used.
pub fn effective_sample_fps(
    policy: SamplingPolicy,
    source_fps: Option<Single>,
    requested: Double,
) -> (r: Single)
    ensures
        r == effective_rate(policy, source_fps, requested),
{
    match policy {
        SamplingPolicy::SourceFpsAdaptive => match source_fps {
            Some(fps) => adaptive_sample_fps(fps),
            None => requested.narrow(),
        },
        SamplingPolicy::Fixed => requested.narrow(),
    }
}

/// What a source was decoded into.
#[derive(Debug)]
pub struct DecodedSource {
    pub source_uri: String,
    pub width: u32,
    pub height: u32,
    pub pixel_format: String,
    pub frame_signals: Vec<FrameSignal>,
    /// Where the frames lie in the images of the source, where that is known.
    pub coordinates: Option<Json>,
}

impl View for FrameSignal {
    type V = FrameSignal;

    open spec fn view(&self) -> FrameSignal {
        *self
    }
}

/// A frame as JSON.
pub open spec fn signal_json(s: FrameSignal) -> JsonView {
    JsonView::Object(
        seq![
            ("frame_index"@, number_view(s.frame_index)),
            ("pts_ms"@, number_view(s.pts_ms)),
            ("perceptual_hash"@, number_view(s.perceptual_hash)),
            ("luma_mean"@, fraction_view(s.luma_mean.widened())),
            ("flicker_score"@, fraction_view(s.flicker_score.widened())),
            ("ghosting_score"@, fraction_view(s.ghosting_score.widened())),
            ("noise_variance_score"@, fraction_view(s.noise_variance_score.widened())),
        ],
    )
}

impl ToJson for FrameSignal {
    open spec fn json_of(v: FrameSignal) -> JsonView {
        signal_json(v)
    }

    fn to_json(&self) -> (r: Json) {
        let mut o = Fields::new();
        o.put("frame_index", Json::number(self.frame_index));
        o.put("pts_ms", Json::number(self.pts_ms));
        o.put("perceptual_hash", Json::number(self.perceptual_hash));
        o.put("luma_mean", Json::single(self.luma_mean));
        o.put("flicker_score", Json::single(self.flicker_score));
        o.put("ghosting_score", Json::single(self.ghosting_score));
        o.put("noise_variance_score", Json::single(self.noise_variance_score));
        assert(o@ =~= signal_json(*self)->Object_0);
        o.object()
    }
}

/// A 32-bit fraction, or `null`.
pub open spec fn single_or_null(s: Option<Single>) -> JsonView {
    match s {
        Some(v) => fraction_view(v.widened()),
        None => JsonView::Null,
    }
}

fn tell_single_or_null(s: Option<Single>) -> (r: Json)
    ensures
        r@ == single_or_null(s),
{
    match s {
        Some(v) => Json::single(v),
        None => Json::Null,
    }
}

/// The event on the ingest of a source.
pub open spec fn received_payload(
    request_id: Seq<char>,
    payload: JsonView,
    decoded: DecodedSource,
    policy: SamplingPolicy,
    sample_fps: Single,
) -> JsonView {
    JsonView::Object(
        seq![
            ("request_id"@, JsonView::Text(request_id)),
            ("ingest"@, payload),
            ("decoded_frames"@, number_view(decoded.frame_signals@.len() as u64)),
            ("source_uri"@, JsonView::Text(decoded.source_uri@)),
            ("sampling_policy"@, JsonView::Text(policy.name())),
            ("sample_fps"@, fraction_view(sample_fps.widened())),
        ],
    )
}

/// The event that keeps the frames of a source.
pub open spec fn decoded_payload(
    request_id: Seq<char>,
    stream_id: Seq<char>,
    decoded: DecodedSource,
    policy: SamplingPolicy,
    source_fps: Option<Single>,
    sample_fps: Single,
) -> JsonView {
    JsonView::Object(
        seq![
            ("request_id"@, JsonView::Text(request_id)),
            ("source_uri"@, JsonView::Text(decoded.source_uri@)),
            ("stream_id"@, JsonView::Text(stream_id)),
            ("sampling_policy"@, JsonView::Text(policy.name())),
            ("source_fps"@, single_or_null(source_fps)),
            ("sample_fps"@, fraction_view(sample_fps.widened())),
            ("decoded_frames"@, number_view(decoded.frame_signals@.len() as u64)),
            ("width"@, number_view(decoded.width as u64)),
            ("height"@, number_view(decoded.height as u64)),
            ("pixel_format"@, JsonView::Text(decoded.pixel_format@)),
            ("signals"@, JsonView::Array(jsons_of::<FrameSignal>(decoded.frame_signals@))),
        ] + coordinate_fields(
            match decoded.coordinates {
                Some(_) => Some(IMAGE_COORDINATE_SCHEMA@),
                None => None,
            },
            opt_json(decoded.coordinates),
        ),
    )
}

/// The reply to an ingest.
pub open spec fn ingested_view(
    request_id: Seq<char>,
    run_id: Seq<char>,
    source_uri: Seq<char>,
    frames: nat,
    policy: SamplingPolicy,
    source_fps: Option<Single>,
    sample_fps: Single,
) -> JsonView {
    JsonView::Object(
        seq![
            ("request_id"@, JsonView::Text(request_id)),
            ("run_id"@, JsonView::Text(run_id)),
            ("status"@, JsonView::Text("processing"@)),
            ("decoded_frames"@, number_view(frames as u64)),
            ("source_uri"@, JsonView::Text(source_uri)),
            ("sampling_policy"@, JsonView::Text(policy.name())),
            ("source_fps"@, single_or_null(source_fps)),
            ("sample_fps"@, fraction_view(sample_fps.widened())),
        ],
    )
}

/// What the ingest of a source leads to.
pub open spec fn ingest_plan(
    request_id: Seq<char>,
    run_id: Seq<char>,
    payload: JsonView,
    p: IngestParams,
    decoded: Result<DecodedSource, String>,
    source_fps: Option<Single>,
) -> PlanView {
    match decoded {
        Err(problem) => only_reply(
            invalid_field_view(request_id, INGEST_CONTEXT@, "source_uri"@, problem@),
        ),
        Ok(d) => {
            let fps = effective_rate(p.sampling_policy, source_fps, p.requested_fps);
            PlanView {
                appends: seq![
                    (
                        "ingest_received"@,
                        received_payload(request_id, payload, d, p.sampling_policy, fps),
                    ),
                    (
                        "frames_decoded"@,
                        decoded_payload(
                            request_id,
                            p.stream_id@,
                            d,
                            p.sampling_policy,
                            source_fps,
                            fps,
                        ),
                    ),
                ],
                reply: ok_view(
                    ingested_view(
                        request_id,
                        run_id,
                        p.source_uri@,
                        d.frame_signals@.len(),
                        p.sampling_policy,
                        source_fps,
                        fps,
                    ),
                ),
            }
        },
    }
}

fn tell_received(
    request_id: &str,
    payload: &Json,
    decoded: &DecodedSource,
    policy: SamplingPolicy,
    sample_fps: Single,
) -> (r: Json)
    ensures
        r@ == received_payload(request_id@, payload@, *decoded, policy, sample_fps),
{
    let mut o = Fields::new();
    o.put("request_id", Json::text(request_id));
    o.put("ingest", payload.copy());
    o.put("decoded_frames", Json::number(decoded.frame_signals.len() as u64));
    o.put("source_uri", Json::text(decoded.source_uri.as_str()));
    o.put("sampling_policy", Json::text(policy.as_str()));
    o.put("sample_fps", Json::single(sample_fps));
    assert(o@ =~= received_payload(
        request_id@,
        payload@,
        *decoded,
        policy,
        sample_fps,
    )->Object_0);
    o.object()
}

fn tell_decoded(
    request_id: &str,
    stream_id: &str,
    decoded: &DecodedSource,
    policy: SamplingPolicy,
    source_fps: Option<Single>,
    sample_fps: Single,
) -> (r: Json)
    ensures
        r@ == decoded_payload(request_id@, stream_id@, *decoded, policy, source_fps, sample_fps),
{
    let mut o = Fields::new();
    o.put("request_id", Json::text(request_id));
    o.put("source_uri", Json::text(decoded.source_uri.as_str()));
    o.put("stream_id", Json::text(stream_id));
    o.put("sampling_policy", Json::text(policy.as_str()));
    o.put("source_fps", tell_single_or_null(source_fps));
    o.put("sample_fps", Json::single(sample_fps));
    o.put("decoded_frames", Json::number(decoded.frame_signals.len() as u64));
    o.put("width", Json::number(decoded.width as u64));
    o.put("height", Json::number(decoded.height as u64));
    o.put("pixel_format", Json::text(decoded.pixel_format.as_str()));
    o.put("signals", list_of(&decoded.frame_signals));
    assert(views(decoded.frame_signals@) =~= decoded.frame_signals@);
    match &decoded.coordinates {
        Some(c) => {
            o.put("coordinate_schema", Json::text(IMAGE_COORDINATE_SCHEMA));
            o.put("coordinates", c.copy());
        },
        None => {},
    }
    assert(o@ =~= decoded_payload(
        request_id@,
        stream_id@,
        *decoded,
        policy,
        source_fps,
        sample_fps,
    )->Object_0);
    o.object()
}

/// Keeps the frames of a source in the log of a run. `decoded` is what the
/// source was decoded into at the rate of sampling that is used, or why it
/// could not be.
pub fn ingest_run(
    request_id: &str,
    run_id: &str,
    payload: &Json,
    params: &IngestParams,
    decoded: &Result<DecodedSource, String>,
    source_fps: Option<Single>,
) -> (r: Plan)
    ensures
        r@ == ingest_plan(request_id@, run_id@, payload@, *params, *decoded, source_fps),
{
    let d = match decoded {
        Err(problem) => return reply_only(
            invalid_field(request_id, INGEST_CONTEXT, "source_uri", owned(problem.as_str())),
        ),
        Ok(d) => d,
    };
    let policy = params.sampling_policy;
    let fps = effective_sample_fps(policy, source_fps, params.requested_fps);
    let mut appends: Vec<EventAppend> = Vec::new();
    appends.push(
        EventAppend {
            kind: "ingest_received",
            payload: tell_received(request_id, payload, d, policy, fps),
        },
    );
    appends.push(
        EventAppend {
            kind: "frames_decoded",
            payload: tell_decoded(
                request_id,
                params.stream_id.as_str(),
                d,
                policy,
                source_fps,
                fps,
            ),
        },
    );
    let mut o = Fields::new();
    o.put("request_id", Json::text(request_id));
    o.put("run_id", Json::text(run_id));
    o.put("status", Json::text("processing"));
    o.put("decoded_frames", Json::number(d.frame_signals.len() as u64));
    o.put("source_uri", Json::text(params.source_uri.as_str()));
    o.put("sampling_policy", Json::text(policy.as_str()));
    o.put("source_fps", tell_single_or_null(source_fps));
    o.put("sample_fps", Json::single(fps));
    let ghost want = ingest_plan(request_id@, run_id@, payload@, *params, *decoded, source_fps);
    assert(o@ =~= want.reply.body->Object_0);
    assert(views(appends@) =~= want.appends);
    Plan { appends, reply: ok(o.object()) }
}


proof fn lemma_signal_reads_back(s: FrameSignal)
    requires
        normalized(s.luma_mean, s.flicker_score, s.ghosting_score, s.noise_variance_score),
    ensures
        signal_of(signal_json(s)) == Ok::<FrameSignal, Seq<char>>(s),
{
    let fields = signal_json(s)->Object_0;
    reveal_strlit("frame_index");
    assert("frame_index"@.len() == 11);
    reveal_strlit("pts_ms");
    assert("pts_ms"@.len() == 6);
    reveal_strlit("perceptual_hash");
    assert("perceptual_hash"@.len() == 15);
    reveal_strlit("luma_mean");
    assert("luma_mean"@.len() == 9);
    reveal_strlit("flicker_score");
    assert("flicker_score"@.len() == 13);
    reveal_strlit("ghosting_score");
    assert("ghosting_score"@.len() == 14);
    reveal_strlit("noise_variance_score");
    assert("noise_variance_score"@.len() == 20);
    field_is_found(fields, 0);
    field_is_found(fields, 1);
    field_is_found(fields, 2);
    field_is_found(fields, 3);
    field_is_found(fields, 4);
    field_is_found(fields, 5);
    field_is_found(fields, 6);
    narrowing_undoes_widening(s.luma_mean);
    narrowing_undoes_widening(s.flicker_score);
    narrowing_undoes_widening(s.ghosting_score);
    narrowing_undoes_widening(s.noise_variance_score);
}

proof fn lemma_signals_read_back(list: Seq<FrameSignal>)
    requires
        forall|i: int|
            0 <= i < list.len() ==> normalized(
                (#[trigger] list[i]).luma_mean,
                list[i].flicker_score,
                list[i].ghosting_score,
                list[i].noise_variance_score,
            ),
    ensures
        signals_of(jsons_of::<FrameSignal>(list)) == Ok::<Seq<FrameSignal>, Seq<char>>(list),
    decreases list.len(),
{
    let items = jsons_of::<FrameSignal>(list);
    if list.len() > 0 {
        lemma_signals_read_back(list.drop_last());
        assert(items.drop_last() =~= jsons_of::<FrameSignal>(list.drop_last()));
        lemma_signal_reads_back(list[list.len() - 1]);
        assert(list.drop_last().push(list.last()) =~= list);
    } else {
        assert(list =~= Seq::empty());
    }
}

/// What an ingest keeps is what an analysis finds: the frames that the log keeps
/// of a source are read back as they were, with the way and the rate of their
/// sampling and with their coordinates, where there are any and they are those
/// of frames. This holds of up to half a million frames, at least one, whose
/// measurements lie between zero and one.
pub proof fn ingested_frames_are_read_back(
    request_id: Seq<char>,
    stream_id: Seq<char>,
    decoded: DecodedSource,
    policy: SamplingPolicy,
    source_fps: Option<Single>,
    sample_fps: Single,
    readable: bool,
)
    requires
        decoded.coordinates is Some ==> readable,
        1 <= decoded.frame_signals@.len() <= 500_000,
        forall|i: int|
            0 <= i < decoded.frame_signals@.len() ==> normalized(
                (#[trigger] decoded.frame_signals@[i]).luma_mean,
                decoded.frame_signals@[i].flicker_score,
                decoded.frame_signals@[i].ghosting_score,
                decoded.frame_signals@[i].noise_variance_score,
            ),
        sample_fps.finite(),
    ensures
        decoded_of(
            decoded_payload(request_id, stream_id, decoded, policy, source_fps, sample_fps),
            readable,
        ) == Ok::<DecodedView, Seq<char>>(
            DecodedView {
                signals: decoded.frame_signals@,
                sampling_policy: policy,
                sample_rate: SampleRate::Given(sample_fps),
                coordinates: opt_json(decoded.coordinates),
            },
        ),
{
    let payload = decoded_payload(request_id, stream_id, decoded, policy, source_fps, sample_fps);
    let fields = payload->Object_0;
    reveal_strlit("request_id");
    assert("request_id"@.len() == 10);
    reveal_strlit("source_uri");
    assert("source_uri"@.len() == 10);
    reveal_strlit("stream_id");
    assert("stream_id"@.len() == 9);
    reveal_strlit("sampling_policy");
    assert("sampling_policy"@.len() == 15);
    reveal_strlit("source_fps");
    assert("source_fps"@.len() == 10);
    reveal_strlit("sample_fps");
    assert("sample_fps"@.len() == 10);
    reveal_strlit("decoded_frames");
    assert("decoded_frames"@.len() == 14);
    reveal_strlit("width");
    assert("width"@.len() == 5);
    reveal_strlit("height");
    assert("height"@.len() == 6);
    reveal_strlit("pixel_format");
    assert("pixel_format"@.len() == 12);
    reveal_strlit("signals");
    assert("signals"@.len() == 7);
    reveal_strlit("coordinate_schema");
    assert("coordinate_schema"@.len() == 17);
    reveal_strlit("coordinates");
    assert("coordinates"@.len() == 11);
    assert("source_fps"@[1] != "sample_fps"@[1]);
    assert("request_id"@[0] != "sample_fps"@[0]);
    assert("source_uri"@[1] != "sample_fps"@[1]);
    field_is_found(fields, 3);
    field_is_found(fields, 5);
    field_is_found(fields, 10);
    if decoded.coordinates is Some {
        field_is_found(fields, 11);
        field_is_found(fields, 12);
    } else {
        field_is_missed(fields, "coordinate_schema"@);
    }
    sampling_policy_names_read_back(policy);
    narrowing_undoes_widening(sample_fps);
    lemma_signals_read_back(decoded.frame_signals@);
}

/// A request that is refused leaves the log as it is.
pub proof fn refused_ingests_change_nothing(
    request_id: Seq<char>,
    run_id: Seq<char>,
    payload: JsonView,
    p: IngestParams,
    decoded: Result<DecodedSource, String>,
    source_fps: Option<Single>,
)
    requires
        ingest_plan(request_id, run_id, payload, p, decoded, source_fps).reply.status != 200,
    ensures
        ingest_plan(request_id, run_id, payload, p, decoded, source_fps).appends.len() == 0,
{
}

/// A source is accepted exactly if the request names no field that there is not,
/// a source, a known policy, a rate from a fifth to a hundred and twenty where
/// the policy is a fixed one, and between one and half a million frames.
pub proof fn ingests_keep_their_bounds(request_id: Seq<char>, payload: JsonView)
    ensures
        ingest_payload_refusal(request_id, payload) is None <==> {
            let source = payload.text_at("source_uri"@);
            let policy = sampling_policy_of(payload.text_at("sampling_policy"@));
            let rate = if payload.double_at("sample_fps"@) is Some {
                payload.double_at("sample_fps"@)
            } else {
                payload.double_at("fixed_fps"@)
            };
            let frames = payload.unsigned_at("max_frames"@);
            &&& stray_in(payload) is None
            &&& source is Some && trimmed(source->0).len() > 0
            &&& policy is Some
            &&& policy == Some(SamplingPolicy::Fixed) ==> rate is Some && double(
                0x3fc9_9999_9999_999a,
            ).le(rate->0) && rate->0.le(double(0x405e_0000_0000_0000))
            &&& frames is Some ==> 1 <= frames->0 <= 500_000
        },
{
}

/// Fields that there are not are found, wherever they stand.
pub proof fn stray_fields_are_found(fields: Seq<(Seq<char>, JsonView)>)
    ensures
        stray_field(fields) is None <==> forall|i: int| #![trigger fields[i]]
            0 <= i < fields.len() ==> {
                let name = fields[i].0;
                name == "source_uri"@ || name == "sampling_policy"@ || name == "fixed_fps"@ || name
                    == "sample_fps"@ || name == "max_frames"@ || name == "stream_id"@
            },
    decreases fields.len(),
{
    if fields.len() > 0 {
        let rest = fields.drop_last();
        stray_fields_are_found(rest);
        assert(fields[fields.len() - 1] == fields.last());
        if stray_field(rest) is Some {
            let i = choose|i: int| #![trigger rest[i]]
                0 <= i < rest.len() && !ingest_field(rest[i].0);
            assert(fields[i] == rest[i]);
        } else {
            assert forall|i: int| #![trigger fields[i]] 0 <= i < rest.len() implies ingest_field(
                fields[i].0,
            ) by {
                assert(rest[i] == fields[i]);
            }
        }
    }
}

/// What is not asked for is set to its usual value: two frames a second, five
/// hundred and twelve frames, the first stream.
pub proof fn sources_are_read_as_asked(p: IngestParams, payload: JsonView)
    requires
        asks(p, payload),
    ensures
        payload.double_at("sample_fps"@) matches Some(d) ==> p.requested_fps == d,
        payload.double_at("sample_fps"@) is None ==> (payload.double_at("fixed_fps"@) matches Some(
            d,
        ) ==> p.requested_fps == d),
        payload.double_at("sample_fps"@) is None && payload.double_at("fixed_fps"@) is None
            ==> p.requested_fps == double(0x4000_0000_0000_0000),
        payload.unsigned_at("max_frames"@) matches Some(n) ==> p.max_frames == n,
        payload.unsigned_at("max_frames"@) is None ==> p.max_frames == 512,
        payload.text_at("stream_id"@) matches Some(s) ==> p.stream_id@ == s,
        payload.text_at("stream_id"@) is None ==> p.stream_id@ == "stream-0"@,
        payload.text_at("source_uri"@) matches Some(s) ==> p.source_uri@ == trimmed(s),
{
}

/// A decoded source is logged as it was asked for and as it was decoded, and the
/// reply tells how many frames there are.
pub proof fn ingests_are_logged_and_told(
    request_id: Seq<char>,
    run_id: Seq<char>,
    payload: JsonView,
    p: IngestParams,
    decoded: Result<DecodedSource, String>,
    source_fps: Option<Single>,
)
    ensures
        ({
            let plan = ingest_plan(request_id, run_id, payload, p, decoded, source_fps);
            &&& decoded is Err ==> plan.appends.len() == 0 && plan.reply.status == 422
            &&& decoded matches Ok(d) ==> {
                let received = plan.appends[0].1;
                let body = plan.reply.body;
                &&& plan.appends.len() == 2
                &&& plan.appends[0].0 == "ingest_received"@
                &&& plan.appends[1].0 == "frames_decoded"@
                &&& received.text_at("request_id"@) == Some(request_id)
                &&& received.get("ingest"@) == Some(payload)
                &&& received.unsigned_at("decoded_frames"@) == Some(d.frame_signals@.len() as u64)
                &&& received.text_at("source_uri"@) == Some(d.source_uri@)
                &&& plan.reply.status == 200
                &&& body.text_at("request_id"@) == Some(request_id)
                &&& body.text_at("run_id"@) == Some(run_id)
                &&& body.text_at("status"@) == Some("processing"@)
                &&& body.unsigned_at("decoded_frames"@) == Some(d.frame_signals@.len() as u64)
                &&& body.text_at("source_uri"@) == Some(p.source_uri@)
                &&& body.text_at("sampling_policy"@) == Some(p.sampling_policy.name())
            }
        }),
{
    reveal_strlit("request_id");
    reveal_strlit("ingest");
    reveal_strlit("decoded_frames");
    reveal_strlit("source_uri");
    reveal_strlit("sampling_policy");
    reveal_strlit("run_id");
    reveal_strlit("status");
    assert("request_id"@.len() == 10);
    assert("ingest"@.len() == 6);
    assert("decoded_frames"@.len() == 14);
    assert("source_uri"@.len() == 10);
    assert("sampling_policy"@.len() == 15);
    assert("run_id"@.len() == 6);
    assert("status"@.len() == 6);
    assert("request_id"@[0] == 'r' && "source_uri"@[0] == 's');
    assert("ingest"@[0] == 'i' && "run_id"@[0] == 'r');
    assert("ingest"@[0] == 'i' && "status"@[0] == 's');
    assert("run_id"@[0] == 'r' && "status"@[0] == 's');
    if let Ok(d) = decoded {
        let plan = ingest_plan(request_id, run_id, payload, p, decoded, source_fps);
        let received = plan.appends[0].1->Object_0;
        crate::json::field_is_found(received, 0);
        crate::json::field_is_found(received, 1);
        crate::json::field_is_found(received, 2);
        crate::json::field_is_found(received, 3);
        let body = plan.reply.body->Object_0;
        crate::json::field_is_found(body, 0);
        crate::json::field_is_found(body, 1);
        crate::json::field_is_found(body, 2);
        crate::json::field_is_found(body, 3);
        crate::json::field_is_found(body, 4);
        crate::json::field_is_found(body, 5);
    }
}

/// A source whose own rate is known and adapted to is sampled at that rate,
/// within bounds; any other at the rate that was asked for.
pub proof fn rates_follow_the_source(
    policy: SamplingPolicy,
    source_fps: Option<Single>,
    requested: Double,
)
    ensures
        policy == SamplingPolicy::SourceFpsAdaptive && source_fps is Some ==> effective_rate(
            policy,
            source_fps,
            requested,
        ) == rate_within_bounds(source_fps->0),
        policy == SamplingPolicy::Fixed || source_fps is None ==> effective_rate(
            policy,
            source_fps,
            requested,
        ) == requested.narrowed(),
{
}

} // verus!
