//! One row of metadata for each frame: what the rules or a model saw in it, with
//! the labels that the caller's map gives them.

use vstd::prelude::*;

use crate::audio::{clamp_unit, unit_single};
use crate::digits::{decimal, hex, padded, push_decimal, to_hex_padded};
use crate::ieee::Single;
use crate::json::{
    field_is_found, fraction_view, jsons_of, list_of, number_view, opt_json, text_or_null, Fields, Json, JsonView,
    ToJson,
};
use crate::models::{
    AnalyzeAnnotations, AnalyzeEvent, AnalyzeFallback, AnalyzeFrameMetadata, AnalyzeMarker,
    AnalyzeObject, AnalyzeTrace, AnalyzeWindow, SamplingPolicy,
};
use crate::overlay::{opt_overlay, OverlayView, SemanticOverlay};
use crate::semantic::{InputView, MarkerInput, MarkerView};
use crate::sort::views;
use crate::signals::IMAGE_COORDINATE_SCHEMA;
use crate::text::{opt_str, opt_text, owned, owned_opt};

verus! {

/// What the first pass decided about a frame.
#[derive(Clone, Copy, Debug, PartialEq, Eq, Structural)]
pub enum GateEventType {
    KeepKeyframe,
    Other,
}

/// What both passes measured of a frame.
#[derive(Debug)]
pub struct FrameMetadata {
    pub frame_index: u64,
    pub pts_ms: u64,
    pub segment_start_ms: u64,
    pub segment_end_ms: u64,
    pub scene_cut: bool,
    pub suspect_artifact: bool,
    pub gate_event: GateEventType,
    pub confidence: Single,
    /// Novelty, stability and motion, each with three decimals.
    pub score_summary: String,
}

/// What is said of a frame before labels are mapped.
#[derive(Debug)]
pub struct FrameLabels {
    pub event_type: String,
    pub object_label: String,
    pub description: String,
    pub summary: String,
    pub confidence: Single,
}

/// What is said of a frame before labels are mapped.
pub ghost struct LabelsView {
    pub event_type: Seq<char>,
    pub object_label: Seq<char>,
    pub description: Seq<char>,
    pub summary: Seq<char>,
    pub confidence: Single,
}

impl View for FrameLabels {
    type V = LabelsView;

    open spec fn view(&self) -> LabelsView {
        LabelsView {
            event_type: self.event_type@,
            object_label: self.object_label@,
            description: self.description@,
            summary: self.summary@,
            confidence: self.confidence,
        }
    }
}

/// The event and its description that the rules alone see in a frame.
pub open spec fn rule_event(m: FrameMetadata) -> (Seq<char>, Seq<char>) {
    if m.scene_cut {
        ("scene_cut"@, "Hard transition detected from pass-1 gate"@)
    } else if m.suspect_artifact {
        ("artifact_suspected"@, "Temporal artifact signal elevated"@)
    } else if m.gate_event == GateEventType::KeepKeyframe {
        ("keyframe_keep"@, "Keyframe retained by deterministic gate"@)
    } else {
        ("context_observation"@, "No hard trigger; contextual metadata only"@)
    }
}

/// What is said of a frame: the words of a model, where there are any, else
/// those of the rules. The confidence stays between zero and one.
pub open spec fn labels_of(m: FrameMetadata, semantic: Option<OverlayView>) -> LabelsView {
    match semantic {
        Some(s) => LabelsView {
            event_type: s.event_type,
            object_label: s.object_label,
            description: s.description,
            summary: s.summary,
            confidence: unit_single(s.confidence),
        },
        None => LabelsView {
            event_type: rule_event(m).0,
            object_label: if m.gate_event == GateEventType::KeepKeyframe {
                "keyframe_candidate"@
            } else {
                "frame_context"@
            },
            description: rule_event(m).1,
            summary: m.score_summary@,
            confidence: unit_single(m.confidence),
        },
    }
}

/// What is said of a frame before labels are mapped.
pub fn frame_labels(m: &FrameMetadata, semantic: Option<&SemanticOverlay>) -> (r: FrameLabels)
    ensures
        r@ == labels_of(
            *m,
            match semantic {
                Some(s) => Some(s@),
                None => None,
            },
        ),
{
    match semantic {
        Some(s) => FrameLabels {
            event_type: s.event_type.clone(),
            object_label: s.object_label.clone(),
            description: s.description.clone(),
            summary: s.summary.clone(),
            confidence: clamp_unit(s.confidence),
        },
        None => {
            let keyframe = m.gate_event == GateEventType::KeepKeyframe;
            let (event, description) = if m.scene_cut {
                ("scene_cut", "Hard transition detected from pass-1 gate")
            } else if m.suspect_artifact {
                ("artifact_suspected", "Temporal artifact signal elevated")
            } else if keyframe {
                ("keyframe_keep", "Keyframe retained by deterministic gate")
            } else {
                ("context_observation", "No hard trigger; contextual metadata only")
            };
            FrameLabels {
                event_type: owned(event),
                object_label: owned(
                    if keyframe {
                        "keyframe_candidate"
                    } else {
                        "frame_context"
                    },
                ),
                description: owned(description),
                summary: m.score_summary.clone(),
                confidence: clamp_unit(m.confidence),
            }
        },
    }
}

/// A label from the caller's map, and whether it had to be made up.
#[derive(Debug)]
pub struct MappedLabel {
    pub label: String,
    pub used_fallback: bool,
}

/// What all rows of one reply have in common.
#[derive(Debug)]
pub struct RowContext {
    pub run_id: String,
    pub stream_id: String,
    pub mode: String,
    pub model: String,
    pub sampling_policy: SamplingPolicy,
    pub sample_fps: Single,
    pub segment_ms: u64,
    pub request_id: String,
    pub trace_id: String,
    /// Where the frames lie in the images of their source, where that is known.
    pub coordinates: Option<Json>,
}

/// What a row is.
pub ghost struct RowView {
    pub run_id: Seq<char>,
    pub stream_id: Seq<char>,
    pub frame_index: u64,
    pub pts_ms: u64,
    pub coordinate_schema: Option<Seq<char>>,
    pub coordinates: Option<JsonView>,
    pub mode: Seq<char>,
    pub model: Seq<char>,
    pub sampling_policy: Seq<char>,
    pub sample_fps: Single,
    pub window_start_ms: u64,
    pub window_end_ms: u64,
    pub segment_id: Seq<char>,
    pub window_source: Seq<char>,
    pub summary: Seq<char>,
    pub objects: Seq<(Seq<char>, Single)>,
    pub events: Seq<(Seq<char>, Single, Seq<char>)>,
    pub confidence: Single,
    pub fallback_used: bool,
    pub request_id: Seq<char>,
    pub trace_id: Seq<char>,
    pub span_id: Seq<char>,
    pub ordering_key: Seq<char>,
    pub finish_reason: Option<Seq<char>>,
}

impl View for AnalyzeObject {
    type V = (Seq<char>, Single);

    open spec fn view(&self) -> (Seq<char>, Single) {
        (self.label@, self.score)
    }
}

impl View for AnalyzeEvent {
    type V = (Seq<char>, Single, Seq<char>);

    open spec fn view(&self) -> (Seq<char>, Single, Seq<char>) {
        (self.kind@, self.score, self.description@)
    }
}

impl View for AnalyzeFrameMetadata {
    type V = RowView;

    open spec fn view(&self) -> RowView {
        RowView {
            run_id: self.run_id@,
            stream_id: self.stream_id@,
            frame_index: self.frame_index,
            pts_ms: self.pts_ms,
            coordinate_schema: opt_str(self.coordinate_schema),
            coordinates: opt_json(self.coordinates),
            mode: self.mode@,
            model: self.model@,
            sampling_policy: self.sampling_policy@,
            sample_fps: self.sample_fps,
            window_start_ms: self.window.start_ms,
            window_end_ms: self.window.end_ms,
            segment_id: self.window.segment_id@,
            window_source: self.window.source@,
            summary: self.annotations.summary@,
            objects: views(self.annotations.objects@),
            events: views(self.annotations.events@),
            confidence: self.confidence,
            fallback_used: self.fallback.used,
            request_id: self.trace.request_id@,
            trace_id: self.trace.trace_id@,
            span_id: self.trace.span_id@,
            ordering_key: self.ordering_key@,
            finish_reason: opt_text(self.finish_reason),
        }
    }
}

/// The name of the segment that a time falls into: its number in eight
/// hexadecimal digits, counted modulo two to the 32.
pub open spec fn segment_name(segment_start_ms: u64, segment_ms: u64) -> Seq<char> {
    "seg-"@ + padded(hex((segment_start_ms / segment_ms) as nat % 0x1_0000_0000), 8)
}

/// The key by which the rows of a run are ordered.
pub open spec fn ordering_key(run_id: Seq<char>, pts_ms: u64, frame_index: u64) -> Seq<char> {
    run_id + ":"@ + decimal(pts_ms as nat) + ":"@ + decimal(frame_index as nat)
}

/// The row of a frame.
pub open spec fn row_of(
    context: RowContext,
    m: FrameMetadata,
    labels: LabelsView,
    event: MappedLabel,
    object: MappedLabel,
    semantic_fallback: bool,
    finish_reason: Option<Seq<char>>,
) -> RowView {
    RowView {
        run_id: context.run_id@,
        stream_id: context.stream_id@,
        frame_index: m.frame_index,
        pts_ms: m.pts_ms,
        coordinate_schema: match context.coordinates {
            Some(_) => Some(IMAGE_COORDINATE_SCHEMA@),
            None => None,
        },
        coordinates: opt_json(context.coordinates),
        mode: context.mode@,
        model: context.model@,
        sampling_policy: context.sampling_policy.name(),
        sample_fps: context.sample_fps,
        window_start_ms: m.segment_start_ms,
        window_end_ms: m.segment_end_ms,
        segment_id: segment_name(m.segment_start_ms, context.segment_ms),
        window_source: "frame"@,
        summary: labels.summary,
        objects: seq![(object.label@, labels.confidence)],
        events: seq![(event.label@, labels.confidence, labels.description)],
        confidence: labels.confidence,
        fallback_used: semantic_fallback || event.used_fallback || object.used_fallback,
        request_id: context.request_id@,
        trace_id: context.trace_id@,
        span_id: "span-"@ + padded(hex(m.frame_index as nat), 16),
        ordering_key: ordering_key(context.run_id@, m.pts_ms, m.frame_index),
        finish_reason,
    }
}

/// What the row of a frame gives to the markers.
pub open spec fn input_of(m: FrameMetadata, labels: LabelsView, event: MappedLabel) -> InputView {
    InputView {
        frame_index: m.frame_index,
        pts_ms: m.pts_ms,
        event_type: event.label@,
        confidence: labels.confidence,
    }
}

/// The row of a frame, and what it gives to the markers.
pub fn compose_frame_metadata(
    context: &RowContext,
    m: &FrameMetadata,
    labels: FrameLabels,
    event: MappedLabel,
    object: MappedLabel,
    semantic_fallback: bool,
    finish_reason: Option<String>,
) -> (r: (AnalyzeFrameMetadata, MarkerInput))
    requires
        context.segment_ms > 0,
    ensures
        r.0@ == row_of(
            *context,
            *m,
            labels@,
            event,
            object,
            semantic_fallback,
            opt_text(finish_reason),
        ),
        r.1@ == input_of(*m, labels@, event),
{
    let segment: u64 = (m.segment_start_ms / context.segment_ms) % 0x1_0000_0000;
    let mut segment_id = owned("seg-");
    segment_id.push_str(to_hex_padded(segment, 8).as_str());
    let mut span_id = owned("span-");
    span_id.push_str(to_hex_padded(m.frame_index, 16).as_str());
    let mut key = context.run_id.clone();
    key.push_str(":");
    push_decimal(&mut key, m.pts_ms);
    key.push_str(":");
    push_decimal(&mut key, m.frame_index);
    let input = MarkerInput {
        frame_index: m.frame_index,
        pts_ms: m.pts_ms,
        event_type: event.label.clone(),
        confidence: labels.confidence,
    };
    let used = semantic_fallback || event.used_fallback || object.used_fallback;
    let mut objects: Vec<AnalyzeObject> = Vec::new();
    let ghost object_label = object.label@;
    objects.push(AnalyzeObject { label: object.label, score: labels.confidence });
    assert(views(objects@) =~= seq![(object_label, labels.confidence)]);
    let mut events: Vec<AnalyzeEvent> = Vec::new();
    let ghost event_label = event.label@;
    let ghost told = labels.description@;
    events.push(
        AnalyzeEvent {
            kind: event.label,
            score: labels.confidence,
            description: labels.description,
        },
    );
    assert(views(events@) =~= seq![(event_label, labels.confidence, told)]);
    let coordinates = match &context.coordinates {
        Some(c) => Some(c.copy()),
        None => None,
    };
    let row = AnalyzeFrameMetadata {
        run_id: context.run_id.clone(),
        stream_id: context.stream_id.clone(),
        frame_index: m.frame_index,
        pts_ms: m.pts_ms,
        coordinate_schema: match &context.coordinates {
            Some(_) => Some(IMAGE_COORDINATE_SCHEMA),
            None => None,
        },
        coordinates,
        mode: context.mode.clone(),
        model: context.model.clone(),
        sampling_policy: owned(context.sampling_policy.as_str()),
        sample_fps: context.sample_fps,
        window: AnalyzeWindow {
            start_ms: m.segment_start_ms,
            end_ms: m.segment_end_ms,
            segment_id,
            source: "frame",
        },
        annotations: AnalyzeAnnotations { summary: labels.summary, objects, events },
        confidence: labels.confidence,
        fallback: AnalyzeFallback { used },
        trace: AnalyzeTrace {
            request_id: context.request_id.clone(),
            trace_id: context.trace_id.clone(),
            span_id,
        },
        ordering_key: key,
        finish_reason,
    };
    (row, input)
}

/// A frame with the labels that the caller's map gives to what is said of it.
#[derive(Debug)]
pub struct LabeledFrame {
    pub frame: FrameMetadata,
    pub event: MappedLabel,
    pub object: MappedLabel,
}

/// The rows of some frames that a model saw together, or that the rules alone
/// judged.
pub open spec fn rows_of(
    context: RowContext,
    frames: Seq<LabeledFrame>,
    semantic: Option<OverlayView>,
    semantic_fallback: bool,
    finish_reason: Option<Seq<char>>,
) -> Seq<RowView> {
    frames.map_values(
        |f: LabeledFrame|
            row_of(
                context,
                f.frame,
                labels_of(f.frame, semantic),
                f.event,
                f.object,
                semantic_fallback,
                finish_reason,
            ),
    )
}

/// What the rows of some frames give to the markers.
pub open spec fn inputs_of(frames: Seq<LabeledFrame>, semantic: Option<OverlayView>) -> Seq<
    InputView,
> {
    frames.map_values(
        |f: LabeledFrame| input_of(f.frame, labels_of(f.frame, semantic), f.event),
    )
}

fn copy_label(l: &MappedLabel) -> (r: MappedLabel)
    ensures
        r.label@ == l.label@,
        r.used_fallback == l.used_fallback,
{
    MappedLabel { label: l.label.clone(), used_fallback: l.used_fallback }
}

/// Appends the rows of some frames, and what they give to the markers.
pub fn compose_rows(
    context: &RowContext,
    frames: &Vec<LabeledFrame>,
    semantic: &Option<SemanticOverlay>,
    semantic_fallback: bool,
    finish_reason: &Option<String>,
    rows: &mut Vec<AnalyzeFrameMetadata>,
    inputs: &mut Vec<MarkerInput>,
)
    requires
        context.segment_ms > 0,
    ensures
        views(final(rows)@) == views(old(rows)@) + rows_of(
            *context,
            frames@,
            opt_overlay(*semantic),
            semantic_fallback,
            opt_text(*finish_reason),
        ),
        views(final(inputs)@) == views(old(inputs)@) + inputs_of(frames@, opt_overlay(*semantic)),
{
    let ghost seen = opt_overlay(*semantic);
    let ghost reason = opt_text(*finish_reason);
    let ghost all = rows_of(*context, frames@, seen, semantic_fallback, reason);
    let ghost given = inputs_of(frames@, seen);
    let ghost rows_before = views(rows@);
    let ghost inputs_before = views(inputs@);
    let mut i: usize = 0;
    assert(rows_before + all.take(0) =~= rows_before);
    assert(inputs_before + given.take(0) =~= inputs_before);
    while i < frames.len()
        invariant
            context.segment_ms > 0,
            seen == opt_overlay(*semantic),
            reason == opt_text(*finish_reason),
            all == rows_of(*context, frames@, seen, semantic_fallback, reason),
            given == inputs_of(frames@, seen),
            i <= frames@.len(),
            views(rows@) == rows_before + all.take(i as int),
            views(inputs@) == inputs_before + given.take(i as int),
        decreases frames@.len() - i,
    {
        let f = &frames[i];
        let labels = match semantic {
            Some(s) => frame_labels(&f.frame, Some(s)),
            None => frame_labels(&f.frame, None),
        };
        let (row, input) = compose_frame_metadata(
            context,
            &f.frame,
            labels,
            copy_label(&f.event),
            copy_label(&f.object),
            semantic_fallback,
            owned_opt(finish_reason),
        );
        let ghost rv = row@;
        let ghost iv = input@;
        let ghost r0 = views(rows@);
        let ghost i0 = views(inputs@);
        assert(rv.objects =~= all[i as int].objects);
        assert(rv.events =~= all[i as int].events);
        assert(rv == all[i as int]);
        assert(iv == given[i as int]);
        rows.push(row);
        inputs.push(input);
        assert(views(rows@) =~= r0.push(rv));
        assert(views(inputs@) =~= i0.push(iv));
        assert(rows_before + all.take(i + 1) =~= r0.push(rv));
        assert(inputs_before + given.take(i + 1) =~= i0.push(iv));
        i += 1;
    }
    assert(all.take(i as int) =~= all);
    assert(given.take(i as int) =~= given);
}

// ---------------------------------------------------------------- JSON
/// The fields of a row on coordinates, where there are any.
pub open spec fn coordinate_fields(
    schema: Option<Seq<char>>,
    coordinates: Option<JsonView>,
) -> Seq<(Seq<char>, JsonView)> {
    match (schema, coordinates) {
        (Some(s), Some(c)) => seq![("coordinate_schema"@, JsonView::Text(s)), ("coordinates"@, c)],
        _ => Seq::empty(),
    }
}

/// A row as JSON.
pub open spec fn row_json(r: RowView) -> JsonView {
    JsonView::Object(
        seq![
            ("run_id"@, JsonView::Text(r.run_id)),
            ("stream_id"@, JsonView::Text(r.stream_id)),
            ("frame_index"@, number_view(r.frame_index)),
            ("pts_ms"@, number_view(r.pts_ms)),
        ] + coordinate_fields(r.coordinate_schema, r.coordinates) + rest_of_row(r),
    )
}

/// The fields of a row behind its place.
pub open spec fn rest_of_row(r: RowView) -> Seq<(Seq<char>, JsonView)> {
    seq![
        ("mode"@, JsonView::Text(r.mode)),
        ("model"@, JsonView::Text(r.model)),
        ("sampling_policy"@, JsonView::Text(r.sampling_policy)),
        ("sample_fps"@, fraction_view(r.sample_fps.widened())),
        (
            "window"@,
            JsonView::Object(
                seq![
                    ("start_ms"@, number_view(r.window_start_ms)),
                    ("end_ms"@, number_view(r.window_end_ms)),
                    ("segment_id"@, JsonView::Text(r.segment_id)),
                    ("source"@, JsonView::Text(r.window_source)),
                ],
            ),
        ),
        (
            "annotations"@,
            JsonView::Object(
                seq![
                    ("summary"@, JsonView::Text(r.summary)),
                    ("objects"@, JsonView::Array(jsons_of::<AnalyzeObject>(r.objects))),
                    ("events"@, JsonView::Array(jsons_of::<AnalyzeEvent>(r.events))),
                ],
            ),
        ),
        ("confidence"@, fraction_view(r.confidence.widened())),
        (
            "fallback"@,
            JsonView::Object(seq![("used"@, JsonView::Bool(r.fallback_used))]),
        ),
        (
            "trace"@,
            JsonView::Object(
                seq![
                    ("request_id"@, JsonView::Text(r.request_id)),
                    ("trace_id"@, JsonView::Text(r.trace_id)),
                    ("span_id"@, JsonView::Text(r.span_id)),
                ],
            ),
        ),
        ("ordering_key"@, JsonView::Text(r.ordering_key)),
        ("finish_reason"@, text_or_null(r.finish_reason)),
    ]
}

impl ToJson for AnalyzeObject {
    open spec fn json_of(v: (Seq<char>, Single)) -> JsonView {
        JsonView::Object(
            seq![("label"@, JsonView::Text(v.0)), ("score"@, fraction_view(v.1.widened()))],
        )
    }

    fn to_json(&self) -> (r: Json) {
        let mut o = Fields::new();
        o.put("label", Json::text(self.label.as_str()));
        o.put("score", Json::single(self.score));
        assert(o@ =~= Self::json_of(self@)->Object_0);
        o.object()
    }
}

impl ToJson for AnalyzeEvent {
    open spec fn json_of(v: (Seq<char>, Single, Seq<char>)) -> JsonView {
        JsonView::Object(
            seq![
                ("type"@, JsonView::Text(v.0)),
                ("score"@, fraction_view(v.1.widened())),
                ("description"@, JsonView::Text(v.2)),
            ],
        )
    }

    fn to_json(&self) -> (r: Json) {
        let mut o = Fields::new();
        o.put("type", Json::text(self.kind.as_str()));
        o.put("score", Json::single(self.score));
        o.put("description", Json::text(self.description.as_str()));
        assert(o@ =~= Self::json_of(self@)->Object_0);
        o.object()
    }
}

impl ToJson for AnalyzeFrameMetadata {
    open spec fn json_of(v: RowView) -> JsonView {
        row_json(v)
    }

    fn to_json(&self) -> (r: Json) {
        let ghost want = row_json(self@)->Object_0;
        let ghost rest = rest_of_row(self@);
        let mut window = Fields::new();
        window.put("start_ms", Json::number(self.window.start_ms));
        window.put("end_ms", Json::number(self.window.end_ms));
        window.put("segment_id", Json::text(self.window.segment_id.as_str()));
        window.put("source", Json::text(self.window.source));
        assert(window@ =~= rest[4].1->Object_0);
        let mut annotations = Fields::new();
        annotations.put("summary", Json::text(self.annotations.summary.as_str()));
        annotations.put("objects", list_of(&self.annotations.objects));
        annotations.put("events", list_of(&self.annotations.events));
        assert(annotations@ =~= rest[5].1->Object_0);
        let mut fallback = Fields::new();
        fallback.put("used", Json::Bool(self.fallback.used));
        assert(fallback@ =~= rest[7].1->Object_0);
        let mut trace = Fields::new();
        trace.put("request_id", Json::text(self.trace.request_id.as_str()));
        trace.put("trace_id", Json::text(self.trace.trace_id.as_str()));
        trace.put("span_id", Json::text(self.trace.span_id.as_str()));
        assert(trace@ =~= rest[8].1->Object_0);
        let mut o = Fields::new();
        o.put("run_id", Json::text(self.run_id.as_str()));
        o.put("stream_id", Json::text(self.stream_id.as_str()));
        o.put("frame_index", Json::number(self.frame_index));
        o.put("pts_ms", Json::number(self.pts_ms));
        match (self.coordinate_schema, &self.coordinates) {
            (Some(schema), Some(coordinates)) => {
                o.put("coordinate_schema", Json::text(schema));
                o.put("coordinates", coordinates.copy());
            },
            _ => {},
        }
        o.put("mode", Json::text(self.mode.as_str()));
        o.put("model", Json::text(self.model.as_str()));
        o.put("sampling_policy", Json::text(self.sampling_policy.as_str()));
        o.put("sample_fps", Json::single(self.sample_fps));
        o.put("window", window.object());
        o.put("annotations", annotations.object());
        o.put("confidence", Json::single(self.confidence));
        o.put("fallback", fallback.object());
        o.put("trace", trace.object());
        o.put("ordering_key", Json::text(self.ordering_key.as_str()));
        o.put("finish_reason", Json::text_or_null(&self.finish_reason));
        assert(o@ =~= want);
        o.object()
    }
}

/// The fields of a marker as JSON.
pub open spec fn marker_fields(m: MarkerView) -> Seq<(Seq<char>, JsonView)> {
    seq![
        ("marker_id"@, JsonView::Text(m.marker_id)),
        ("run_id"@, JsonView::Text(m.run_id)),
        ("stream_id"@, JsonView::Text(m.stream_id)),
        ("event_type"@, JsonView::Text(m.event_type)),
        ("status"@, JsonView::Text(m.status)),
        ("start_frame"@, number_view(m.start_frame)),
        ("end_frame"@, number_view(m.end_frame)),
        ("start_pts_ms"@, number_view(m.start_pts_ms)),
        ("end_pts_ms"@, number_view(m.end_pts_ms)),
        ("confidence"@, fraction_view(m.confidence.widened())),
        ("supersedes_marker_id"@, text_or_null(m.supersedes_marker_id)),
    ]
}

/// A marker as JSON.
pub open spec fn marker_json(m: MarkerView) -> JsonView {
    JsonView::Object(marker_fields(m))
}

impl AnalyzeMarker {
    /// The fields of a marker as JSON.
    pub fn to_fields(&self) -> (r: Fields)
        ensures
            r@ == marker_fields(self@),
    {
        let mut o = Fields::new();
        o.put("marker_id", Json::text(self.marker_id.as_str()));
        o.put("run_id", Json::text(self.run_id.as_str()));
        o.put("stream_id", Json::text(self.stream_id.as_str()));
        o.put("event_type", Json::text(self.event_type.as_str()));
        o.put("status", Json::text(self.status.as_str()));
        o.put("start_frame", Json::number(self.start_frame));
        o.put("end_frame", Json::number(self.end_frame));
        o.put("start_pts_ms", Json::number(self.start_pts_ms));
        o.put("end_pts_ms", Json::number(self.end_pts_ms));
        o.put("confidence", Json::single(self.confidence));
        o.put("supersedes_marker_id", Json::text_or_null(&self.supersedes_marker_id));
        assert(o@ =~= marker_fields(self@));
        o
    }

}

impl ToJson for AnalyzeMarker {
    open spec fn json_of(v: MarkerView) -> JsonView {
        marker_json(v)
    }

    fn to_json(&self) -> (r: Json) {
        self.to_fields().object()
    }
}

// ------------------------------------------------------------------ laws
/// What a frame is called goes by the rules in this order: a cut, an artifact, a
/// kept key frame, and else context. The words of a model go before all of them,
/// and are taken over as they are.
pub proof fn labels_come_from_the_model_or_the_rules(
    m: FrameMetadata,
    semantic: Option<OverlayView>,
)
    ensures
        ({
            let l = labels_of(m, semantic);
            let kept = m.gate_event == GateEventType::KeepKeyframe;
            &&& semantic is Some ==> l.event_type == semantic->0.event_type && l.object_label
                == semantic->0.object_label && l.description == semantic->0.description && l.summary
                == semantic->0.summary
            &&& semantic is None && m.scene_cut ==> l.event_type == "scene_cut"@
            &&& semantic is None && !m.scene_cut && m.suspect_artifact ==> l.event_type
                == "artifact_suspected"@
            &&& semantic is None && !m.scene_cut && !m.suspect_artifact && kept ==> l.event_type
                == "keyframe_keep"@
            &&& semantic is None && !m.scene_cut && !m.suspect_artifact && !kept ==> l.event_type
                == "context_observation"@
            &&& semantic is None ==> l.summary == m.score_summary@
            &&& semantic is None && kept ==> l.object_label == "keyframe_candidate"@
            &&& semantic is None && !kept ==> l.object_label == "frame_context"@
        }),
{
}

/// A row tells of its frame: where and when it is, the window that it stands in,
/// what the caller's labels call it, how certain that is, and whether any of it
/// had to be made up.
pub proof fn rows_tell_of_their_frame(
    context: RowContext,
    frames: Seq<LabeledFrame>,
    semantic: Option<OverlayView>,
    semantic_fallback: bool,
    finish_reason: Option<Seq<char>>,
    i: int,
)
    requires
        0 <= i < frames.len(),
    ensures
        ({
            let row = row_json(
                rows_of(context, frames, semantic, semantic_fallback, finish_reason)[i],
            );
            let given = inputs_of(frames, semantic)[i];
            let f = frames[i];
            let window = row.get("window"@)->0;
            let said = row.get("annotations"@)->0;
            let event = said.items_at("events"@)->0[0];
            let object = said.items_at("objects"@)->0[0];
            &&& row.text_at("run_id"@) == Some(context.run_id@)
            &&& row.text_at("stream_id"@) == Some(context.stream_id@)
            &&& row.unsigned_at("frame_index"@) == Some(f.frame.frame_index)
            &&& row.unsigned_at("pts_ms"@) == Some(f.frame.pts_ms)
            &&& window.unsigned_at("start_ms"@) == Some(f.frame.segment_start_ms)
            &&& window.unsigned_at("end_ms"@) == Some(f.frame.segment_end_ms)
            &&& event.text_at("type"@) == Some(f.event.label@)
            &&& event.text_at("description"@) == Some(labels_of(f.frame, semantic).description)
            &&& object.text_at("label"@) == Some(f.object.label@)
            &&& row.get("fallback"@)->0.flag_at("used"@) == Some(
                semantic_fallback || f.event.used_fallback || f.object.used_fallback,
            )
            &&& given.frame_index == f.frame.frame_index && given.pts_ms == f.frame.pts_ms
            &&& given.event_type == f.event.label@
            &&& given.confidence == rows_of(
                context,
                frames,
                semantic,
                semantic_fallback,
                finish_reason,
            )[i].confidence
        }),
{
    reveal_strlit("run_id");
    reveal_strlit("stream_id");
    reveal_strlit("frame_index");
    reveal_strlit("pts_ms");
    reveal_strlit("coordinate_schema");
    reveal_strlit("coordinates");
    reveal_strlit("mode");
    reveal_strlit("model");
    reveal_strlit("sampling_policy");
    reveal_strlit("sample_fps");
    reveal_strlit("window");
    reveal_strlit("annotations");
    reveal_strlit("confidence");
    reveal_strlit("fallback");
    reveal_strlit("start_ms");
    reveal_strlit("end_ms");
    reveal_strlit("summary");
    reveal_strlit("objects");
    reveal_strlit("events");
    reveal_strlit("type");
    reveal_strlit("score");
    reveal_strlit("description");
    reveal_strlit("label");
    reveal_strlit("used");
    assert("run_id"@.len() == 6 && "stream_id"@.len() == 9 && "frame_index"@.len() == 11
        && "pts_ms"@.len() == 6 && "coordinate_schema"@.len() == 17 && "coordinates"@.len() == 11
        && "mode"@.len() == 4 && "model"@.len() == 5 && "sampling_policy"@.len() == 15
        && "sample_fps"@.len() == 10 && "window"@.len() == 6 && "annotations"@.len() == 11
        && "confidence"@.len() == 10 && "fallback"@.len() == 8);
    assert("start_ms"@.len() == 8 && "end_ms"@.len() == 6 && "summary"@.len() == 7
        && "objects"@.len() == 7 && "events"@.len() == 6 && "type"@.len() == 4 && "score"@.len()
        == 5 && "description"@.len() == 11);
    assert("run_id"@[0] == 'r' && "pts_ms"@[0] == 'p' && "window"@[0] == 'w' && "frame_index"@[0]
        == 'f' && "coordinates"@[0] == 'c' && "annotations"@[0] == 'a' && "summary"@[0] == 's'
        && "objects"@[0] == 'o');
    let r = rows_of(context, frames, semantic, semantic_fallback, finish_reason)[i];
    let fields = row_json(r)->Object_0;
    field_is_found(fields, 0);
    field_is_found(fields, 1);
    field_is_found(fields, 2);
    field_is_found(fields, 3);
    let at = coordinate_fields(r.coordinate_schema, r.coordinates).len() as int;
    field_is_found(fields, 8 + at);
    field_is_found(fields, 9 + at);
    field_is_found(fields, 11 + at);
    let window = row_json(r).get("window"@)->0->Object_0;
    field_is_found(window, 0);
    field_is_found(window, 1);
    let said = row_json(r).get("annotations"@)->0->Object_0;
    field_is_found(said, 1);
    field_is_found(said, 2);
    let event = <AnalyzeEvent as ToJson>::json_of(r.events[0])->Object_0;
    field_is_found(event, 0);
    field_is_found(event, 2);
    let object = <AnalyzeObject as ToJson>::json_of(r.objects[0])->Object_0;
    field_is_found(object, 0);
    field_is_found(row_json(r).get("fallback"@)->0->Object_0, 0);
}

/// A marker as JSON tells each thing under its name.
pub proof fn markers_are_told_whole(m: MarkerView)
    ensures
        ({
            let told = marker_json(m);
            &&& told.text_at("marker_id"@) == Some(m.marker_id)
            &&& told.text_at("event_type"@) == Some(m.event_type)
            &&& told.text_at("status"@) == Some(m.status)
            &&& told.unsigned_at("start_frame"@) == Some(m.start_frame)
            &&& told.unsigned_at("end_frame"@) == Some(m.end_frame)
            &&& told.unsigned_at("start_pts_ms"@) == Some(m.start_pts_ms)
            &&& told.unsigned_at("end_pts_ms"@) == Some(m.end_pts_ms)
            &&& told.text_at("supersedes_marker_id"@) == m.supersedes_marker_id
        }),
{
    reveal_strlit("marker_id");
    reveal_strlit("run_id");
    reveal_strlit("stream_id");
    reveal_strlit("event_type");
    reveal_strlit("status");
    reveal_strlit("start_frame");
    reveal_strlit("end_frame");
    reveal_strlit("start_pts_ms");
    reveal_strlit("end_pts_ms");
    reveal_strlit("confidence");
    reveal_strlit("supersedes_marker_id");
    assert("marker_id"@.len() == 9 && "run_id"@.len() == 6 && "stream_id"@.len() == 9
        && "event_type"@.len() == 10 && "status"@.len() == 6 && "start_frame"@.len() == 11
        && "end_frame"@.len() == 9 && "start_pts_ms"@.len() == 12 && "end_pts_ms"@.len() == 10
        && "confidence"@.len() == 10 && "supersedes_marker_id"@.len() == 20);
    assert("marker_id"@[0] == 'm' && "stream_id"@[0] == 's' && "end_frame"@[0] == 'e'
        && "run_id"@[0] == 'r' && "status"@[0] == 's' && "event_type"@[1] == 'v'
        && "end_pts_ms"@[1] == 'n' && "confidence"@[0] == 'c' && "end_pts_ms"@[0] == 'e'
        && "event_type"@[0] == 'e');
    let fields = marker_fields(m);
    field_is_found(fields, 0);
    field_is_found(fields, 3);
    field_is_found(fields, 4);
    field_is_found(fields, 5);
    field_is_found(fields, 6);
    field_is_found(fields, 7);
    field_is_found(fields, 8);
    field_is_found(fields, 10);
}

} // verus!
