//! Reading the log of a run: its events, its markers, and what was seen.

use vstd::prelude::*;

use crate::json::{
    defaults_fill_gaps_only, field_is_found, json_views, number_or_null, number_view, opt_json,
    parse_json, parse_payload, read_json, with_default, Fields, Json, JsonNumber, JsonView,
};
use crate::ids::valid_run_id;
use crate::models::AnalyzeMarker;
use crate::places::{next_place_counts, no_place_below_zero, places, same_places};
use crate::response::{ok, ok_view, Reply, ReplyView};
use crate::runs::{
    check_run, opt_snapshot, payload_view, run_refusal, RunSnapshot, SnapshotView,
};
use crate::semantic::MarkerView;
use crate::sort::{sorted, sorting_orders_and_permutes, stable_sort, views, Ranked};
use crate::text::{
    le, opt_str, opt_text, owned_opt, same, text_le, text_order_is_total, text_order_is_transitive,
};
use crate::timeline::{event_views, EventView, TimelineEvent};

verus! {

/// Query parameters of `GET /v1/runs/{run_id}/markers`.
#[derive(Debug)]
pub struct MarkerQueryParams {
    pub status: Option<String>,
    pub event_type: Option<String>,
    pub from_frame: Option<u64>,
    pub to_frame: Option<u64>,
}

/// Query parameters of `GET /v1/runs/{run_id}/events`.
#[derive(Debug)]
pub struct EventsQueryParams {
    /// Only events whose payload names this index.
    pub index: Option<String>,
}

/// Query parameters of `GET /v1/runs/{run_id}/interactions`.
#[derive(Debug)]
pub struct InteractionsQueryParams {
    /// Only events whose payload names this index.
    pub index: Option<String>,
}

// ---------------------------------------------------------------- events
/// Whether a payload names the index that is asked for, where one is. `read` is
/// what the text of the payload reads as.
pub open spec fn index_named(read: Option<JsonView>, index: Option<Seq<char>>) -> bool {
    match index {
        None => true,
        Some(wanted) => match read {
            Some(v) => v.text_at("index_name"@) == Some(wanted),
            None => false,
        },
    }
}

/// Whether an event belongs to the index that is asked for, where one is.
pub open spec fn tagged(event: EventView, index: Option<Seq<char>>) -> bool {
    index_named(read_json(event.payload), index)
}

/// Whether a payload names the index that is asked for, where one is.
pub fn names_index(read: &Option<Json>, index: &Option<String>) -> (r: bool)
    ensures
        r == index_named(opt_json(*read), opt_text(*index)),
{
    match index {
        None => true,
        Some(wanted) => match read {
            Some(v) => match v.text_at("index_name") {
                Some(name) => same(name, wanted.as_str()),
                None => false,
            },
            None => false,
        },
    }
}

fn is_tagged(event: &TimelineEvent, index: &Option<String>) -> (r: bool)
    ensures
        r == tagged(event@, opt_text(*index)),
{
    names_index(&parse_json(event.payload.as_str()), index)
}

/// What is told of an event with some payload.
pub open spec fn event_json_with(event: EventView, payload: JsonView) -> JsonView {
    JsonView::Object(
        seq![
            ("seq"@, number_view(event.seq)),
            ("pts_ms"@, number_view(event.pts_ms)),
            ("kind"@, JsonView::Text(event.kind)),
            ("payload"@, payload),
        ],
    )
}

/// What is told of an event.
pub open spec fn event_json(event: EventView) -> JsonView {
    event_json_with(event, payload_view(event))
}

/// Tells of an event with some payload.
pub fn tell_event_with(event: &TimelineEvent, payload: Json) -> (r: Json)
    ensures
        r@ == event_json_with(event@, payload@),
{
    let ghost want = event_json_with(event@, payload@);
    let mut o = Fields::new();
    o.put("seq", Json::number(event.seq));
    o.put("pts_ms", Json::number(event.pts_ms));
    o.put("kind", Json::text(event.kind.as_str()));
    o.put("payload", payload);
    assert(o@ =~= want->Object_0);
    o.object()
}

fn tell_event(event: &TimelineEvent) -> (r: Json)
    ensures
        r@ == event_json(event@),
{
    tell_event_with(event, parse_payload(event.payload.as_str()))
}

/// What is told of the events that are kept, in their order.
pub open spec fn told_events(
    events: Seq<EventView>,
    keep: spec_fn(EventView) -> bool,
) -> Seq<JsonView>
    decreases events.len(),
{
    if events.len() == 0 {
        Seq::empty()
    } else {
        let before = told_events(events.drop_last(), keep);
        if keep(events.last()) {
            before.push(event_json(events.last()))
        } else {
            before
        }
    }
}

/// The reply to a request for the events of a run.
pub open spec fn events_reply(
    request_id: Seq<char>,
    run_id: Seq<char>,
    snapshot: Option<SnapshotView>,
    principal: Seq<char>,
    events: Seq<EventView>,
    index: Option<Seq<char>>,
) -> ReplyView {
    match run_refusal(request_id, "invalid events request"@, run_id, snapshot, principal) {
        Some(reply) => reply,
        None => ok_view(
            JsonView::Object(
                seq![
                    ("request_id"@, JsonView::Text(request_id)),
                    ("run_id"@, JsonView::Text(run_id)),
                    (
                        "events"@,
                        JsonView::Array(told_events(events, |e: EventView| tagged(e, index))),
                    ),
                ],
            ),
        ),
    }
}

/// Tells the events of a run, all or those of one index.
pub fn get_events(
    request_id: &str,
    run_id: &str,
    snapshot: &Option<RunSnapshot>,
    principal: &str,
    events: &Vec<TimelineEvent>,
    query: &EventsQueryParams,
) -> (r: Reply)
    ensures
        r@ == events_reply(
            request_id@,
            run_id@,
            opt_snapshot(*snapshot),
            principal@,
            event_views(events@),
            opt_text(query.index),
        ),
{
    match check_run(request_id, "invalid events request", run_id, snapshot, principal) {
        Err(reply) => return reply,
        Ok(_) => {},
    }
    let ghost all = event_views(events@);
    let ghost keep = |e: EventView| tagged(e, opt_text(query.index));
    let mut out: Vec<Json> = Vec::new();
    let mut i: usize = 0;
    assert(json_views(out@) =~= Seq::empty());
    while i < events.len()
        invariant
            all == event_views(events@),
            keep == (|e: EventView| tagged(e, opt_text(query.index))),
            i <= events@.len(),
            json_views(out@) == told_events(all.take(i as int), keep),
        decreases events@.len() - i,
    {
        assert(all.take(i + 1).drop_last() =~= all.take(i as int));
        assert(all.take(i + 1).last() == events@[i as int]@);
        if is_tagged(&events[i], &query.index) {
            let ghost before = json_views(out@);
            out.push(tell_event(&events[i]));
            assert(json_views(out@) =~= before.push(event_json(events@[i as int]@)));
        }
        i += 1;
    }
    assert(all.take(i as int) =~= all);
    let mut o = Fields::new();
    o.put("request_id", Json::text(request_id));
    o.put("run_id", Json::text(run_id));
    o.put("events", Json::list(out));
    let ghost want = seq![
        ("request_id"@, JsonView::Text(request_id@)),
        ("run_id"@, JsonView::Text(run_id@)),
        ("events"@, JsonView::Array(told_events(all, keep))),
    ];
    assert(o@ =~= want);
    ok(o.object())
}

/// The id of the run that a query names, or nothing.
pub open spec fn queried_run(payload: JsonView) -> Seq<char> {
    match payload.text_at("run_id"@) {
        Some(id) => id,
        None => ""@,
    }
}

/// Whether a query asks for an event: by the number that events begin at, and
/// by the kind.
pub open spec fn queried(payload: JsonView, event: EventView) -> bool {
    &&& event.seq >= match payload.unsigned_at("from_seq"@) {
        Some(n) => n,
        None => 0,
    }
    &&& match payload.text_at("kind"@) {
        Some(kind) => event.kind == kind,
        None => true,
    }
}

/// The reply to a query.
pub open spec fn query_reply(
    request_id: Seq<char>,
    payload: JsonView,
    snapshot: Option<SnapshotView>,
    principal: Seq<char>,
    events: Seq<EventView>,
) -> ReplyView {
    match run_refusal(
        request_id,
        "invalid query payload"@,
        queried_run(payload),
        snapshot,
        principal,
    ) {
        Some(reply) => reply,
        None => ok_view(
            JsonView::Object(
                seq![
                    ("request_id"@, JsonView::Text(request_id)),
                    ("query"@, payload),
                    (
                        "matches"@,
                        JsonView::Array(told_events(events, |e: EventView| queried(payload, e))),
                    ),
                ],
            ),
        ),
    }
}

/// Tells the events that a query asks for. `snapshot` and `events` are those of
/// the run that it names.
pub fn query(
    request_id: &str,
    payload: &Json,
    snapshot: &Option<RunSnapshot>,
    principal: &str,
    events: &Vec<TimelineEvent>,
) -> (r: Reply)
    ensures
        r@ == query_reply(
            request_id@,
            payload@,
            opt_snapshot(*snapshot),
            principal@,
            event_views(events@),
        ),
{
    let run_id = match payload.text_at("run_id") {
        Some(id) => id,
        None => "",
    };
    match check_run(request_id, "invalid query payload", run_id, snapshot, principal) {
        Err(reply) => return reply,
        Ok(_) => {},
    }
    let kind = payload.text_at("kind");
    let from_seq: u64 = match payload.unsigned_at("from_seq") {
        Some(n) => n,
        None => 0,
    };
    let ghost all = event_views(events@);
    let ghost keep = |e: EventView| queried(payload@, e);
    let mut out: Vec<Json> = Vec::new();
    let mut i: usize = 0;
    assert(json_views(out@) =~= Seq::empty());
    while i < events.len()
        invariant
            all == event_views(events@),
            keep == (|e: EventView| queried(payload@, e)),
            opt_str(kind) == payload@.text_at("kind"@),
            from_seq == match payload@.unsigned_at("from_seq"@) {
                Some(n) => n,
                None => 0,
            },
            i <= events@.len(),
            json_views(out@) == told_events(all.take(i as int), keep),
        decreases events@.len() - i,
    {
        assert(all.take(i + 1).drop_last() =~= all.take(i as int));
        assert(all.take(i + 1).last() == events@[i as int]@);
        let kind_fits = match kind {
            Some(k) => events[i].is(k),
            None => true,
        };
        if events[i].seq >= from_seq && kind_fits {
            let ghost before = json_views(out@);
            out.push(tell_event(&events[i]));
            assert(json_views(out@) =~= before.push(event_json(events@[i as int]@)));
        }
        i += 1;
    }
    assert(all.take(i as int) =~= all);
    let mut o = Fields::new();
    o.put("request_id", Json::text(request_id));
    o.put("query", payload.copy());
    o.put("matches", Json::list(out));
    let ghost want = seq![
        ("request_id"@, JsonView::Text(request_id@)),
        ("query"@, payload@),
        ("matches"@, JsonView::Array(told_events(all, keep))),
    ];
    assert(o@ =~= want);
    ok(o.object())
}

// --------------------------------------------------------------- markers
/// An event, with the marker that its payload reads as, where it reads as one.
#[derive(Debug)]
pub struct MarkerEvent {
    pub kind: String,
    pub marker: Option<AnalyzeMarker>,
}

impl View for MarkerEvent {
    type V = (Seq<char>, Option<MarkerView>);

    open spec fn view(&self) -> (Seq<char>, Option<MarkerView>) {
        (
            self.kind@,
            match self.marker {
                Some(m) => Some(m@),
                None => None,
            },
        )
    }
}

/// Markers by the frames that they span, then by their ids.
pub struct ByFrames;

impl Ranked<ByFrames> for AnalyzeMarker {
    open spec fn ranks_before(a: MarkerView, b: MarkerView) -> bool {
        a.start_frame < b.start_frame || (a.start_frame == b.start_frame && (a.end_frame
            < b.end_frame || (a.end_frame == b.end_frame && text_le(a.marker_id, b.marker_id))))
    }

    fn may_precede(&self, other: &Self) -> (r: bool) {
        self.start_frame < other.start_frame || (self.start_frame == other.start_frame && (
        self.end_frame < other.end_frame || (self.end_frame == other.end_frame && le(
            self.marker_id.as_str(),
            other.marker_id.as_str(),
        ))))
    }

    proof fn rank_is_total(a: MarkerView, b: MarkerView) {
        text_order_is_total(a.marker_id, b.marker_id);
    }

    proof fn rank_is_transitive(a: MarkerView, b: MarkerView, c: MarkerView) {
        if text_le(a.marker_id, b.marker_id) && text_le(b.marker_id, c.marker_id) {
            text_order_is_transitive(a.marker_id, b.marker_id, c.marker_id);
        }
    }
}

/// A text is the one that is asked for, where one is.
pub open spec fn text_fits(text: Seq<char>, wanted: Option<Seq<char>>) -> bool {
    match wanted {
        Some(w) => text == w,
        None => true,
    }
}

fn fits(text: &str, wanted: &Option<String>) -> (r: bool)
    ensures
        r == text_fits(text@, opt_text(*wanted)),
{
    match wanted {
        Some(w) => same(text, w.as_str()),
        None => true,
    }
}

impl MarkerQueryParams {
    /// Whether a marker is asked for: by its status, by its kind, and by the
    /// frames that it spans.
    pub open spec fn asks_for(self, m: MarkerView) -> bool {
        &&& text_fits(m.status, opt_text(self.status))
        &&& text_fits(m.event_type, opt_text(self.event_type))
        &&& match self.from_frame {
            Some(from) => m.end_frame >= from,
            None => true,
        }
        &&& match self.to_frame {
            Some(to) => m.start_frame <= to,
            None => true,
        }
    }

    fn selects(&self, m: &AnalyzeMarker) -> (r: bool)
        ensures
            r == self.asks_for(m@),
    {
        let begins = match self.from_frame {
            Some(from) => m.end_frame >= from,
            None => true,
        };
        let ends = match self.to_frame {
            Some(to) => m.start_frame <= to,
            None => true,
        };
        fits(m.status.as_str(), &self.status) && fits(m.event_type.as_str(), &self.event_type)
            && begins && ends
    }
}

fn copy_marker(m: &AnalyzeMarker) -> (r: AnalyzeMarker)
    ensures
        r@ == m@,
{
    AnalyzeMarker {
        marker_id: m.marker_id.clone(),
        run_id: m.run_id.clone(),
        stream_id: m.stream_id.clone(),
        event_type: m.event_type.clone(),
        status: m.status.clone(),
        start_frame: m.start_frame,
        end_frame: m.end_frame,
        start_pts_ms: m.start_pts_ms,
        end_pts_ms: m.end_pts_ms,
        confidence: m.confidence,
        supersedes_marker_id: owned_opt(&m.supersedes_marker_id),
    }
}

/// The markers that are asked for, in the order of their events.
pub open spec fn selected_markers(
    events: Seq<(Seq<char>, Option<MarkerView>)>,
    params: MarkerQueryParams,
) -> Seq<MarkerView>
    decreases events.len(),
{
    if events.len() == 0 {
        Seq::empty()
    } else {
        let before = selected_markers(events.drop_last(), params);
        match events.last().1 {
            Some(m) => if events.last().0 == "marker_emitted"@ && params.asks_for(m) {
                before.push(m)
            } else {
                before
            },
            None => before,
        }
    }
}

/// The reply to a request for the markers of a run.
pub open spec fn markers_reply(
    request_id: Seq<char>,
    run_id: Seq<char>,
    snapshot: Option<SnapshotView>,
    principal: Seq<char>,
    events: Seq<(Seq<char>, Option<MarkerView>)>,
    params: MarkerQueryParams,
) -> ReplyView {
    match run_refusal(request_id, "invalid markers request"@, run_id, snapshot, principal) {
        Some(reply) => reply,
        None => ok_view(
            JsonView::Object(
                seq![
                    ("request_id"@, JsonView::Text(request_id)),
                    ("run_id"@, JsonView::Text(run_id)),
                    (
                        "markers"@,
                        JsonView::Array(
                            crate::json::jsons_of::<AnalyzeMarker>(
                                sorted::<AnalyzeMarker, ByFrames>(
                                    selected_markers(events, params),
                                ),
                            ),
                        ),
                    ),
                ],
            ),
        ),
    }
}

/// Tells the markers of a run that are asked for, in the order of their frames.
pub fn get_markers(
    request_id: &str,
    run_id: &str,
    snapshot: &Option<RunSnapshot>,
    principal: &str,
    events: &Vec<MarkerEvent>,
    params: &MarkerQueryParams,
) -> (r: Reply)
    ensures
        r@ == markers_reply(
            request_id@,
            run_id@,
            opt_snapshot(*snapshot),
            principal@,
            views(events@),
            *params,
        ),
{
    match check_run(request_id, "invalid markers request", run_id, snapshot, principal) {
        Err(reply) => return reply,
        Ok(_) => {},
    }
    let ghost all = views(events@);
    let mut markers: Vec<AnalyzeMarker> = Vec::new();
    let mut i: usize = 0;
    assert(views(markers@) =~= Seq::empty());
    while i < events.len()
        invariant
            all == views(events@),
            i <= events@.len(),
            views(markers@) == selected_markers(all.take(i as int), *params),
        decreases events@.len() - i,
    {
        assert(all.take(i + 1).drop_last() =~= all.take(i as int));
        assert(all.take(i + 1).last() == events@[i as int]@);
        match &events[i].marker {
            Some(m) => if same(events[i].kind.as_str(), "marker_emitted") && params.selects(m) {
                let ghost before = views(markers@);
                markers.push(copy_marker(m));
                assert(views(markers@) =~= before.push(m@));
            },
            None => {},
        }
        i += 1;
    }
    assert(all.take(i as int) =~= all);
    stable_sort::<AnalyzeMarker, ByFrames>(&mut markers);
    let mut o = Fields::new();
    o.put("request_id", Json::text(request_id));
    o.put("run_id", Json::text(run_id));
    o.put("markers", crate::json::list_of(&markers));
    let ghost want = seq![
        ("request_id"@, JsonView::Text(request_id@)),
        ("run_id"@, JsonView::Text(run_id@)),
        (
            "markers"@,
            JsonView::Array(
                crate::json::jsons_of::<AnalyzeMarker>(
                    sorted::<AnalyzeMarker, ByFrames>(selected_markers(all, *params)),
                ),
            ),
        ),
    ];
    assert(o@ =~= want);
    ok(o.object())
}

// ---------------------------------------------------------- interactions
/// When a chunk began and ended.
#[derive(Clone, Copy, Debug)]
pub struct ChunkTiming {
    pub chunk_index: u64,
    pub pts_start_ms: u64,
    pub pts_end_ms: u64,
}

/// The times that a payload tells of a chunk, where it tells them. A time that
/// it does not tell is that of its event.
pub open spec fn timing_told(p: JsonView, pts_ms: u64) -> Option<ChunkTiming> {
    match p.unsigned_at("chunk_index"@) {
        Some(chunk_index) => Some(
            ChunkTiming {
                chunk_index,
                pts_start_ms: match p.unsigned_at("pts_start_ms"@) {
                    Some(ms) => ms,
                    None => pts_ms,
                },
                pts_end_ms: match p.unsigned_at("pts_end_ms"@) {
                    Some(ms) => ms,
                    None => pts_ms,
                },
            },
        ),
        None => None,
    }
}

/// The times that an event tells of a chunk, where it tells them.
pub open spec fn timing_in(event: EventView) -> Option<ChunkTiming> {
    if event.kind == "semantic_chunk_generated"@ {
        timing_told(payload_view(event), event.pts_ms)
    } else {
        None
    }
}

/// The times that events tell of chunks, in their order.
pub open spec fn timings_in(events: Seq<EventView>) -> Seq<ChunkTiming>
    decreases events.len(),
{
    if events.len() == 0 {
        Seq::empty()
    } else {
        let before = timings_in(events.drop_last());
        match timing_in(events.last()) {
            Some(t) => before.push(t),
            None => before,
        }
    }
}

/// The last that was told of the times of a chunk.
pub open spec fn timing_of(timings: Seq<ChunkTiming>, chunk_index: u64) -> Option<ChunkTiming>
    decreases timings.len(),
{
    if timings.len() == 0 {
        None
    } else if timings.last().chunk_index == chunk_index {
        Some(timings.last())
    } else {
        timing_of(timings.drop_last(), chunk_index)
    }
}

/// The times that a payload tells of a chunk, where it tells them.
pub fn told_timing(payload: &Json, pts_ms: u64) -> (r: Option<ChunkTiming>)
    ensures
        r == timing_told(payload@, pts_ms),
{
    match payload.unsigned_at("chunk_index") {
        None => None,
        Some(chunk_index) => {
            let pts_start_ms: u64 = match payload.unsigned_at("pts_start_ms") {
                Some(ms) => ms,
                None => pts_ms,
            };
            let pts_end_ms: u64 = match payload.unsigned_at("pts_end_ms") {
                Some(ms) => ms,
                None => pts_ms,
            };
            Some(ChunkTiming { chunk_index, pts_start_ms, pts_end_ms })
        },
    }
}

fn read_timing(event: &TimelineEvent) -> (r: Option<ChunkTiming>)
    ensures
        r == timing_in(event@),
{
    if event.is("semantic_chunk_generated") {
        told_timing(&parse_payload(event.payload.as_str()), event.pts_ms)
    } else {
        None
    }
}

fn find_timing(timings: &Vec<ChunkTiming>, chunk_index: u64) -> (r: Option<ChunkTiming>)
    ensures
        r == timing_of(timings@, chunk_index),
{
    let mut i: usize = timings.len();
    assert(timings@.take(i as int) =~= timings@);
    while i > 0
        invariant
            i <= timings@.len(),
            timing_of(timings@, chunk_index) == timing_of(timings@.take(i as int), chunk_index),
        decreases i,
    {
        assert(timings@.take(i as int).last() == timings@[i - 1]);
        if timings[i - 1].chunk_index == chunk_index {
            return Some(timings[i - 1]);
        }
        assert(timings@.take(i as int).drop_last() =~= timings@.take(i - 1));
        i -= 1;
    }
    None
}

/// A value that says which chunk it is of, and when that was: an object gets
/// the fields that it does not have.
pub open spec fn placed(
    item: JsonView,
    chunk_index: Option<u64>,
    pts_start_ms: u64,
    pts_end_ms: u64,
) -> JsonView {
    match item {
        JsonView::Object(fields) => JsonView::Object(
            with_default(
                with_default(
                    with_default(fields, "chunk_index"@, number_or_null(chunk_index)),
                    "pts_start_ms"@,
                    number_view(pts_start_ms),
                ),
                "pts_end_ms"@,
                number_view(pts_end_ms),
            ),
        ),
        _ => item,
    }
}

fn place(item: &Json, chunk_index: Option<u64>, pts_start_ms: u64, pts_end_ms: u64) -> (r: Json)
    ensures
        r@ == placed(item@, chunk_index, pts_start_ms, pts_end_ms),
{
    let copy = item.copy();
    match copy.into_fields() {
        Ok(fields) => {
            let mut o = fields;
            o.set_default("chunk_index", Json::number_or_null(chunk_index));
            o.set_default("pts_start_ms", Json::number(pts_start_ms));
            o.set_default("pts_end_ms", Json::number(pts_end_ms));
            o.object()
        },
        Err(other) => other,
    }
}

/// A text, or an empty one.
pub open spec fn text_or_blank(t: Option<Seq<char>>) -> Seq<char> {
    match t {
        Some(s) => s,
        None => ""@,
    }
}

/// What one event tells of interactions: the items of the output that a schema
/// asked for, or else one item made of its label and kind, where it has any.
pub open spec fn interactions_in(
    payload: JsonView,
    pts_ms: u64,
    timings: Seq<ChunkTiming>,
) -> Seq<JsonView> {
    let chunk_index = payload.unsigned_at("chunk_index"@);
    let told = match chunk_index {
        Some(c) => timing_of(timings, c),
        None => None,
    };
    let start = match told {
        Some(t) => t.pts_start_ms,
        None => pts_ms,
    };
    let end = match told {
        Some(t) => t.pts_end_ms,
        None => pts_ms,
    };
    match payload.get("raw_output"@) {
        Some(JsonView::Array(items)) => items.map_values(
            |item: JsonView| placed(item, chunk_index, start, end),
        ),
        Some(JsonView::Object(fields)) => seq![
            placed(JsonView::Object(fields), chunk_index, start, end),
        ],
        _ => {
            let label = text_or_blank(payload.text_at("object_label"@));
            let kind = text_or_blank(payload.text_at("event_type"@));
            if label.len() == 0 && kind.len() == 0 {
                Seq::empty()
            } else {
                seq![
                    JsonView::Object(
                        seq![
                            ("chunk_index"@, number_or_null(chunk_index)),
                            ("pts_start_ms"@, number_view(start)),
                            ("pts_end_ms"@, number_view(end)),
                            ("object_label"@, JsonView::Text(label)),
                            ("event_type"@, JsonView::Text(kind)),
                        ],
                    ),
                ]
            }
        },
    }
}

/// What a payload tells of interactions.
pub fn read_interactions(payload: &Json, pts_ms: u64, timings: &Vec<ChunkTiming>) -> (r: Vec<Json>)
    ensures
        json_views(r@) == interactions_in(payload@, pts_ms, timings@),
{
    let chunk_index = payload.unsigned_at("chunk_index");
    let told = match chunk_index {
        Some(c) => find_timing(timings, c),
        None => None,
    };
    let start: u64 = match told {
        Some(t) => t.pts_start_ms,
        None => pts_ms,
    };
    let end: u64 = match told {
        Some(t) => t.pts_end_ms,
        None => pts_ms,
    };
    let mut out: Vec<Json> = Vec::new();
    assert(json_views(out@) =~= Seq::empty());
    match payload.get("raw_output") {
        Some(raw) => {
            match raw.as_array() {
                Some(items) => {
                    let ghost want = json_views(items@).map_values(
                        |item: JsonView| placed(item, chunk_index, start, end),
                    );
                    let mut i: usize = 0;
                    while i < items.len()
                        invariant
                            i <= items@.len(),
                            want == json_views(items@).map_values(
                                |item: JsonView| placed(item, chunk_index, start, end),
                            ),
                            json_views(out@) == want.take(i as int),
                        decreases items@.len() - i,
                    {
                        let ghost before = json_views(out@);
                        out.push(place(&items[i], chunk_index, start, end));
                        let ghost added = placed(items@[i as int]@, chunk_index, start, end);
                        assert(json_views(out@) =~= before.push(added));
                        assert(want.take(i + 1) =~= before.push(added));
                        i += 1;
                    }
                    assert(want.take(i as int) =~= want);
                    return out;
                },
                None => {},
            }
            match raw {
                Json::Object(_) => {
                    assert(raw@ is Object);
                    out.push(place(raw, chunk_index, start, end));
                    assert(json_views(out@) =~= seq![placed(raw@, chunk_index, start, end)]);
                    return out;
                },
                _ => {
                    assert(!(raw@ is Object) && !(raw@ is Array));
                },
            }
        },
        None => {},
    }
    let label = match payload.text_at("object_label") {
        Some(s) => s,
        None => "",
    };
    let kind = match payload.text_at("event_type") {
        Some(s) => s,
        None => "",
    };
    if label.is_empty() && kind.is_empty() {
        return out;
    }
    let mut o = Fields::new();
    o.put("chunk_index", Json::number_or_null(chunk_index));
    o.put("pts_start_ms", Json::number(start));
    o.put("pts_end_ms", Json::number(end));
    o.put("object_label", Json::text(label));
    o.put("event_type", Json::text(kind));
    let ghost want = seq![
        ("chunk_index"@, number_or_null(chunk_index)),
        ("pts_start_ms"@, number_view(start)),
        ("pts_end_ms"@, number_view(end)),
        ("object_label"@, JsonView::Text(label@)),
        ("event_type"@, JsonView::Text(kind@)),
    ];
    assert(o@ =~= want);
    out.push(o.object());
    assert(json_views(out@) =~= seq![JsonView::Object(want)]);
    out
}

/// What the events of an index tell of interactions, in their order.
pub open spec fn interactions_of(
    events: Seq<EventView>,
    timings: Seq<ChunkTiming>,
    index: Option<Seq<char>>,
) -> Seq<JsonView>
    decreases events.len(),
{
    if events.len() == 0 {
        Seq::empty()
    } else {
        let before = interactions_of(events.drop_last(), timings, index);
        let e = events.last();
        if e.kind == "semantic_chunk_inferred"@ && tagged(e, index) {
            before + interactions_in(payload_view(e), e.pts_ms, timings)
        } else {
            before
        }
    }
}

/// The reply to a request for the interactions of a run.
pub open spec fn interactions_reply(
    request_id: Seq<char>,
    run_id: Seq<char>,
    snapshot: Option<SnapshotView>,
    principal: Seq<char>,
    events: Seq<EventView>,
    index: Option<Seq<char>>,
) -> ReplyView {
    match run_refusal(request_id, "invalid interactions request"@, run_id, snapshot, principal) {
        Some(reply) => reply,
        None => {
            let found = interactions_of(events, timings_in(events), index);
            ok_view(
                JsonView::Object(
                    seq![
                        ("run_id"@, JsonView::Text(run_id)),
                        ("count"@, number_view(found.len() as u64)),
                        ("interactions"@, JsonView::Array(found)),
                    ],
                ),
            )
        },
    }
}

/// Tells the interactions that were seen in a run, all or those of one index.
pub fn get_interactions(
    request_id: &str,
    run_id: &str,
    snapshot: &Option<RunSnapshot>,
    principal: &str,
    events: &Vec<TimelineEvent>,
    query: &InteractionsQueryParams,
) -> (r: Reply)
    ensures
        r@ == interactions_reply(
            request_id@,
            run_id@,
            opt_snapshot(*snapshot),
            principal@,
            event_views(events@),
            opt_text(query.index),
        ),
{
    match check_run(request_id, "invalid interactions request", run_id, snapshot, principal) {
        Err(reply) => return reply,
        Ok(_) => {},
    }
    let ghost all = event_views(events@);
    let mut timings: Vec<ChunkTiming> = Vec::new();
    let mut i: usize = 0;
    assert(timings@ =~= Seq::empty());
    while i < events.len()
        invariant
            all == event_views(events@),
            i <= events@.len(),
            timings@ == timings_in(all.take(i as int)),
        decreases events@.len() - i,
    {
        assert(all.take(i + 1).drop_last() =~= all.take(i as int));
        assert(all.take(i + 1).last() == events@[i as int]@);
        match read_timing(&events[i]) {
            Some(t) => timings.push(t),
            None => {},
        }
        i += 1;
    }
    assert(all.take(i as int) =~= all);
    let mut found: Vec<Json> = Vec::new();
    let mut k: usize = 0;
    assert(json_views(found@) =~= Seq::empty());
    while k < events.len()
        invariant
            all == event_views(events@),
            timings@ == timings_in(all),
            k <= events@.len(),
            json_views(found@) == interactions_of(
                all.take(k as int),
                timings@,
                opt_text(query.index),
            ),
        decreases events@.len() - k,
    {
        assert(all.take(k + 1).drop_last() =~= all.take(k as int));
        assert(all.take(k + 1).last() == events@[k as int]@);
        if events[k].is("semantic_chunk_inferred") && is_tagged(&events[k], &query.index) {
            let ghost before = json_views(found@);
            let payload = parse_payload(events[k].payload.as_str());
            let mut more = read_interactions(&payload, events[k].pts_ms, &timings);
            let ghost added = json_views(more@);
            found.append(&mut more);
            assert(json_views(found@) =~= before + added);
        }
        k += 1;
    }
    assert(all.take(k as int) =~= all);
    let count: u64 = found.len() as u64;
    let mut o = Fields::new();
    o.put("run_id", Json::text(run_id));
    o.put("count", Json::number(count));
    o.put("interactions", Json::list(found));
    let ghost told = interactions_of(all, timings@, opt_text(query.index));
    assert(told.len() == count);
    let ghost want = seq![
        ("run_id"@, JsonView::Text(run_id@)),
        ("count"@, number_view(told.len() as u64)),
        ("interactions"@, JsonView::Array(told)),
    ];
    assert(o@ =~= want);
    ok(o.object())
}

// ------------------------------------------------------------------ laws
proof fn lemma_names()
    ensures
        "chunk_index"@.len() == 11,
        "pts_start_ms"@.len() == 12,
        "pts_end_ms"@.len() == 10,
        "object_label"@.len() == 12,
        "event_type"@.len() == 10,
        "pts_start_ms"@[0] == 'p',
        "pts_end_ms"@[0] == 'p',
        "object_label"@[0] == 'o',
        "event_type"@[0] == 'e',
{
    reveal_strlit("chunk_index");
    reveal_strlit("pts_start_ms");
    reveal_strlit("pts_end_ms");
    reveal_strlit("object_label");
    reveal_strlit("event_type");
}

/// What the model told of itself for the interaction at `i`: the item of its
/// output, where it is an object or a list.
pub open spec fn model_item(payload: JsonView, i: int) -> Option<JsonView> {
    match payload.get("raw_output"@) {
        Some(JsonView::Array(items)) => Some(items[i]),
        Some(JsonView::Object(fields)) => Some(JsonView::Object(fields)),
        _ => None,
    }
}

proof fn lemma_placed(
    item: JsonView,
    chunk_index: Option<u64>,
    start: u64,
    end: u64,
    name: Seq<char>,
)
    ensures
        item is Object ==> placed(item, chunk_index, start, end).get(name) == (if item.get(name)
            is Some {
            item.get(name)
        } else if name == "chunk_index"@ {
            Some(number_or_null(chunk_index))
        } else if name == "pts_start_ms"@ {
            Some(number_view(start))
        } else if name == "pts_end_ms"@ {
            Some(number_view(end))
        } else {
            None
        }),
{
    lemma_names();
    if let JsonView::Object(fields) = item {
        let one = with_default(fields, "chunk_index"@, number_or_null(chunk_index));
        let two = with_default(one, "pts_start_ms"@, number_view(start));
        defaults_fill_gaps_only(fields, "chunk_index"@, number_or_null(chunk_index), name);
        defaults_fill_gaps_only(
            fields,
            "chunk_index"@,
            number_or_null(chunk_index),
            "pts_start_ms"@,
        );
        defaults_fill_gaps_only(
            fields,
            "chunk_index"@,
            number_or_null(chunk_index),
            "pts_end_ms"@,
        );
        defaults_fill_gaps_only(one, "pts_start_ms"@, number_view(start), name);
        defaults_fill_gaps_only(one, "pts_start_ms"@, number_view(start), "pts_end_ms"@);
        defaults_fill_gaps_only(two, "pts_end_ms"@, number_view(end), name);
    }
}

/// What an interaction says of its chunk and of the times, for the times that
/// it gets.
proof fn lemma_interaction(payload: JsonView, pts_ms: u64, timings: Seq<ChunkTiming>, i: int)
    requires
        0 <= i < interactions_in(payload, pts_ms, timings).len(),
    ensures
        ({
            let item = interactions_in(payload, pts_ms, timings)[i];
            let own = model_item(payload, i);
            let c = payload.unsigned_at("chunk_index"@);
            let told = if c is Some {
                timing_of(timings, c->0)
            } else {
                None
            };
            let start = if told is Some {
                told->0.pts_start_ms
            } else {
                pts_ms
            };
            let end = if told is Some {
                told->0.pts_end_ms
            } else {
                pts_ms
            };
            match own {
                Some(o) => if o is Object {
                    &&& item is Object
                    &&& item.get("chunk_index"@) == (if o.get("chunk_index"@) is Some {
                        o.get("chunk_index"@)
                    } else {
                        Some(number_or_null(c))
                    })
                    &&& item.get("pts_start_ms"@) == (if o.get("pts_start_ms"@) is Some {
                        o.get("pts_start_ms"@)
                    } else {
                        Some(number_view(start))
                    })
                    &&& item.get("pts_end_ms"@) == (if o.get("pts_end_ms"@) is Some {
                        o.get("pts_end_ms"@)
                    } else {
                        Some(number_view(end))
                    })
                    &&& forall|name: Seq<char>|
                        name != "chunk_index"@ && name != "pts_start_ms"@ && name != "pts_end_ms"@
                            ==> #[trigger] item.get(name) == o.get(name)
                } else {
                    item == o
                },
                None => {
                    &&& item.get("chunk_index"@) == Some(number_or_null(c))
                    &&& item.get("pts_start_ms"@) == Some(number_view(start))
                    &&& item.get("pts_end_ms"@) == Some(number_view(end))
                    &&& item.text_at("object_label"@) == Some(
                        text_or_blank(payload.text_at("object_label"@)),
                    )
                    &&& item.text_at("event_type"@) == Some(
                        text_or_blank(payload.text_at("event_type"@)),
                    )
                },
            }
        }),
{
    lemma_names();
    let item = interactions_in(payload, pts_ms, timings)[i];
    let c = payload.unsigned_at("chunk_index"@);
    let told = if c is Some {
        timing_of(timings, c->0)
    } else {
        None
    };
    let start = if told is Some {
        told->0.pts_start_ms
    } else {
        pts_ms
    };
    let end = if told is Some {
        told->0.pts_end_ms
    } else {
        pts_ms
    };
    match model_item(payload, i) {
        Some(o) => {
            assert(item == placed(o, c, start, end));
            lemma_placed(o, c, start, end, "chunk_index"@);
            lemma_placed(o, c, start, end, "pts_start_ms"@);
            lemma_placed(o, c, start, end, "pts_end_ms"@);
            assert forall|name: Seq<char>|
                name != "chunk_index"@ && name != "pts_start_ms"@ && name != "pts_end_ms"@
                    && o is Object implies #[trigger] item.get(name) == o.get(name) by {
                lemma_placed(o, c, start, end, name);
            }
        },
        None => {
            let fields = item->Object_0;
            field_is_found(fields, 0);
            field_is_found(fields, 1);
            field_is_found(fields, 2);
            field_is_found(fields, 3);
            field_is_found(fields, 4);
        },
    }
}

proof fn lemma_last_timing(events: Seq<EventView>, k: int, c: u64)
    requires
        0 <= k < events.len(),
        events[k].kind == "semantic_chunk_generated"@,
        payload_view(events[k]).unsigned_at("chunk_index"@) == Some(c),
        forall|j: int|
            k < j < events.len() && (#[trigger] events[j]).kind == "semantic_chunk_generated"@
                ==> payload_view(events[j]).unsigned_at("chunk_index"@) != Some(c),
    ensures
        timing_of(timings_in(events), c) == timing_in(events[k]),
        timing_in(events[k]) is Some,
    decreases events.len(),
{
    let shorter = events.drop_last();
    let before = timings_in(shorter);
    if k == events.len() - 1 {
        assert(timings_in(events).last() == timing_in(events[k])->0);
    } else {
        lemma_last_timing(shorter, k, c);
        match timing_in(events.last()) {
            Some(t) => {
                assert(before.push(t).drop_last() =~= before);
                assert(t.chunk_index != c);
            },
            None => {},
        }
    }
}

proof fn lemma_no_timing(events: Seq<EventView>, c: u64)
    requires
        forall|j: int|
            0 <= j < events.len() && (#[trigger] events[j]).kind == "semantic_chunk_generated"@
                ==> payload_view(events[j]).unsigned_at("chunk_index"@) != Some(c),
    ensures
        timing_of(timings_in(events), c) is None,
    decreases events.len(),
{
    if events.len() > 0 {
        let shorter = events.drop_last();
        lemma_no_timing(shorter, c);
        match timing_in(events.last()) {
            Some(t) => {
                assert(timings_in(shorter).push(t).drop_last() =~= timings_in(shorter));
                assert(t.chunk_index != c);
            },
            None => {},
        }
    }
}

/// An interaction of a chunk starts and ends when the last event that tells of
/// the chunk says that it starts and ends; a time that this event leaves out is
/// that of the event itself. Only what the model told itself goes before that.
/// So where the chunk ends no earlier than it starts, neither does the
/// interaction.
pub proof fn interactions_have_the_times_of_their_chunk(
    events: Seq<EventView>,
    k: int,
    payload: JsonView,
    pts_ms: u64,
    i: int,
)
    requires
        0 <= k < events.len(),
        events[k].kind == "semantic_chunk_generated"@,
        payload.unsigned_at("chunk_index"@) is Some,
        payload_view(events[k]).unsigned_at("chunk_index"@) == payload.unsigned_at("chunk_index"@),
        forall|j: int|
            k < j < events.len() && (#[trigger] events[j]).kind == "semantic_chunk_generated"@
                ==> payload_view(events[j]).unsigned_at("chunk_index"@) != payload.unsigned_at(
                "chunk_index"@,
            ),
        0 <= i < interactions_in(payload, pts_ms, timings_in(events)).len(),
    ensures
        ({
            let chunk = payload_view(events[k]);
            let item = interactions_in(payload, pts_ms, timings_in(events))[i];
            let own = model_item(payload, i);
            let start = if chunk.unsigned_at("pts_start_ms"@) is Some {
                chunk.unsigned_at("pts_start_ms"@)
            } else {
                Some(events[k].pts_ms)
            };
            let end = if chunk.unsigned_at("pts_end_ms"@) is Some {
                chunk.unsigned_at("pts_end_ms"@)
            } else {
                Some(events[k].pts_ms)
            };
            let told_none = own is None || (own->0 is Object && own->0.get("pts_start_ms"@) is None
                && own->0.get("pts_end_ms"@) is None);
            &&& told_none ==> item.unsigned_at("pts_start_ms"@) == start
            &&& told_none ==> item.unsigned_at("pts_end_ms"@) == end
            &&& told_none && start->0 <= end->0 ==> item.unsigned_at("pts_start_ms"@)->0
                <= item.unsigned_at("pts_end_ms"@)->0
            &&& own is None ==> item.unsigned_at("chunk_index"@) == payload.unsigned_at(
                "chunk_index"@,
            )
            &&& own is Some && own->0 is Object ==> {
                &&& item.get("pts_start_ms"@) == (if own->0.get("pts_start_ms"@) is Some {
                    own->0.get("pts_start_ms"@)
                } else {
                    Some(JsonView::Number(JsonNumber::Unsigned(start->0)))
                })
                &&& item.get("pts_end_ms"@) == (if own->0.get("pts_end_ms"@) is Some {
                    own->0.get("pts_end_ms"@)
                } else {
                    Some(JsonView::Number(JsonNumber::Unsigned(end->0)))
                })
            }
        }),
{
    let c = payload.unsigned_at("chunk_index"@)->0;
    lemma_last_timing(events, k, c);
    lemma_interaction(payload, pts_ms, timings_in(events), i);
}

/// An interaction of a chunk that no event tells of, or of none, is when its own
/// event was.
pub proof fn other_interactions_have_the_time_of_their_event(
    events: Seq<EventView>,
    payload: JsonView,
    pts_ms: u64,
    i: int,
)
    requires
        forall|j: int|
            0 <= j < events.len() && (#[trigger] events[j]).kind == "semantic_chunk_generated"@
                && payload_view(events[j]).unsigned_at("chunk_index"@) is Some ==> payload_view(
                events[j],
            ).unsigned_at("chunk_index"@) != payload.unsigned_at("chunk_index"@),
        0 <= i < interactions_in(payload, pts_ms, timings_in(events)).len(),
    ensures
        ({
            let item = interactions_in(payload, pts_ms, timings_in(events))[i];
            let own = model_item(payload, i);
            own is None || (own->0 is Object && own->0.get("pts_start_ms"@) is None && own->0.get(
                "pts_end_ms"@,
            ) is None) ==> item.unsigned_at("pts_start_ms"@) == Some(pts_ms) && item.unsigned_at(
                "pts_end_ms"@,
            ) == Some(pts_ms)
        }),
{
    if let Some(c) = payload.unsigned_at("chunk_index"@) {
        lemma_no_timing(events, c);
    }
    lemma_interaction(payload, pts_ms, timings_in(events), i);
}

/// What the model told is told on: each item of its output is one interaction,
/// in their order, and keeps every field that it has. Where the model told no
/// object or list, its label and its kind make one interaction, unless both are
/// missing or empty.
pub proof fn interactions_keep_what_the_model_told(
    payload: JsonView,
    pts_ms: u64,
    timings: Seq<ChunkTiming>,
)
    ensures
        ({
            let found = interactions_in(payload, pts_ms, timings);
            match payload.get("raw_output"@) {
                Some(JsonView::Array(items)) => {
                    &&& found.len() == items.len()
                    &&& forall|i: int, name: Seq<char>|
                        #![trigger found[i].get(name)]
                        0 <= i < items.len() && items[i] is Object && items[i].get(name) is Some
                            ==> found[i].get(name) == items[i].get(name)
                    &&& forall|i: int|
                        0 <= i < items.len() && !(items[i] is Object) ==> #[trigger] found[i]
                            == items[i]
                },
                Some(JsonView::Object(fields)) => {
                    &&& found.len() == 1
                    &&& forall|name: Seq<char>|
                        #![trigger found[0].get(name)]
                        JsonView::Object(fields).get(name) is Some ==> found[0].get(name)
                            == JsonView::Object(fields).get(name)
                },
                _ => {
                    let label = payload.text_at("object_label"@);
                    let kind = payload.text_at("event_type"@);
                    &&& found.len() <= 1
                    &&& found.len() == 1 <==> (label is Some && label->0.len() > 0) || (kind is Some
                        && kind->0.len() > 0)
                    &&& found.len() == 1 && label is Some ==> found[0].text_at("object_label"@)
                        == label
                    &&& found.len() == 1 && kind is Some ==> found[0].text_at("event_type"@) == kind
                },
            }
        }),
{
    reveal_strlit("");
    let found = interactions_in(payload, pts_ms, timings);
    match payload.get("raw_output"@) {
        Some(JsonView::Array(items)) => {
            assert forall|i: int, name: Seq<char>|
                #![trigger found[i].get(name)]
                0 <= i < items.len() && items[i] is Object && items[i].get(name)
                    is Some implies found[i].get(name) == items[i].get(name) by {
                lemma_interaction(payload, pts_ms, timings, i);
            }
            assert forall|i: int|
                0 <= i < items.len() && !(items[i] is Object) implies #[trigger] found[i]
                == items[i] by {
                lemma_interaction(payload, pts_ms, timings, i);
            }
        },
        Some(JsonView::Object(fields)) => {
            lemma_interaction(payload, pts_ms, timings, 0);
        },
        _ => {
            if found.len() == 1 {
                lemma_interaction(payload, pts_ms, timings, 0);
            }
        },
    }
}

/// One more event adds its interactions behind those before, where it tells of a
/// chunk that a model looked at and belongs to the index that is asked for, and
/// else adds none.
pub proof fn each_event_adds_its_interactions(
    events: Seq<EventView>,
    e: EventView,
    timings: Seq<ChunkTiming>,
    index: Option<Seq<char>>,
)
    ensures
        ({
            let read = read_json(e.payload);
            let asked = e.kind == "semantic_chunk_inferred"@ && (index is Some ==> read is Some
                && read->0.text_at("index_name"@) == index);
            interactions_of(events.push(e), timings, index) == interactions_of(
                events,
                timings,
                index,
            ) + (if asked {
                interactions_in(payload_view(e), e.pts_ms, timings)
            } else {
                Seq::empty()
            })
        }),
{
    assert(events.push(e).drop_last() =~= events);
    assert(interactions_of(events, timings, index) + Seq::<JsonView>::empty() =~= interactions_of(
        events,
        timings,
        index,
    ));
}

proof fn lemma_told(events: Seq<EventView>, e: EventView, keep: spec_fn(EventView) -> bool)
    ensures
        told_events(events.push(e), keep) == (if keep(e) {
            told_events(events, keep).push(event_json(e))
        } else {
            told_events(events, keep)
        }),
        told_events(Seq::empty(), keep) == Seq::<JsonView>::empty(),
{
    assert(events.push(e).drop_last() =~= events);
}

/// What is told of an event is its number, its time, its kind and its payload.
pub open spec fn is_told(item: JsonView, e: EventView) -> bool {
    &&& item.unsigned_at("seq"@) == Some(e.seq)
    &&& item.unsigned_at("pts_ms"@) == Some(e.pts_ms)
    &&& item.text_at("kind"@) == Some(e.kind)
    &&& item.get("payload"@) == Some(payload_view(e))
}

proof fn lemma_is_told(e: EventView)
    ensures
        is_told(event_json(e), e),
{
    reveal_strlit("seq");
    reveal_strlit("pts_ms");
    reveal_strlit("kind");
    reveal_strlit("payload");
    assert("seq"@.len() == 3 && "pts_ms"@.len() == 6 && "kind"@.len() == 4 && "payload"@.len() == 7);
    let fields = event_json(e)->Object_0;
    field_is_found(fields, 0);
    field_is_found(fields, 1);
    field_is_found(fields, 2);
    field_is_found(fields, 3);
}

/// The owner of a run is told its events in their order: one more event is told
/// behind the others, where no index is asked for or its payload names the one
/// that is, and else not at all.
pub proof fn each_event_of_an_index_is_told(
    request_id: Seq<char>,
    run_id: Seq<char>,
    snapshot: Option<SnapshotView>,
    principal: Seq<char>,
    events: Seq<EventView>,
    e: EventView,
    index: Option<Seq<char>>,
)
    requires
        valid_run_id(run_id),
        snapshot is Some && snapshot->0.principal_key == principal && !snapshot->0.deleted,
    ensures
        ({
            let none = events_reply(request_id, run_id, snapshot, principal, Seq::empty(), index);
            let fewer = events_reply(request_id, run_id, snapshot, principal, events, index);
            let more = events_reply(request_id, run_id, snapshot, principal, events.push(e), index);
            let before = fewer.body.items_at("events"@)->0;
            let after = more.body.items_at("events"@)->0;
            let read = read_json(e.payload);
            let asked = index is None || (read is Some && read->0.text_at("index_name"@) == index);
            &&& fewer.status == 200 && more.status == 200
            &&& fewer.body.items_at("events"@) is Some && more.body.items_at("events"@) is Some
            &&& none.body.items_at("events"@) == Some(Seq::<JsonView>::empty())
            &&& asked ==> after.len() == before.len() + 1 && after.drop_last() == before && is_told(
                after.last(),
                e,
            )
            &&& !asked ==> after == before
        }),
{
    reveal_strlit("request_id");
    reveal_strlit("run_id");
    reveal_strlit("events");
    assert("request_id"@.len() == 10 && "run_id"@.len() == 6 && "events"@.len() == 6);
    assert("run_id"@[0] == 'r' && "events"@[0] == 'e');
    let keep = |e: EventView| tagged(e, index);
    lemma_told(events, e, keep);
    lemma_is_told(e);
    field_is_found(
        events_reply(request_id, run_id, snapshot, principal, Seq::empty(), index).body->Object_0,
        2,
    );
    field_is_found(
        events_reply(request_id, run_id, snapshot, principal, events, index).body->Object_0,
        2,
    );
    field_is_found(
        events_reply(request_id, run_id, snapshot, principal, events.push(e), index).body->Object_0,
        2,
    );
    assert(told_events(events, keep).push(event_json(e)).drop_last() =~= told_events(events, keep));
}

/// A query is answered with the events that it asks for, in their order: one
/// more event is told behind the others where its number is not below the one
/// that the query begins at and its kind is the one that is asked for, each
/// where the query says so, and else not at all.
pub proof fn each_queried_event_is_told(
    request_id: Seq<char>,
    payload: JsonView,
    snapshot: Option<SnapshotView>,
    principal: Seq<char>,
    events: Seq<EventView>,
    e: EventView,
)
    requires
        payload.text_at("run_id"@) is Some && valid_run_id(payload.text_at("run_id"@)->0),
        snapshot is Some && snapshot->0.principal_key == principal && !snapshot->0.deleted,
    ensures
        ({
            let none = query_reply(request_id, payload, snapshot, principal, Seq::empty());
            let fewer = query_reply(request_id, payload, snapshot, principal, events);
            let more = query_reply(request_id, payload, snapshot, principal, events.push(e));
            let before = fewer.body.items_at("matches"@)->0;
            let after = more.body.items_at("matches"@)->0;
            let from = payload.unsigned_at("from_seq"@);
            let kind = payload.text_at("kind"@);
            let asked = (from is Some ==> from->0 <= e.seq) && (kind is Some ==> kind->0 == e.kind);
            &&& fewer.status == 200 && more.status == 200
            &&& fewer.body.items_at("matches"@) is Some && more.body.items_at("matches"@) is Some
            &&& none.body.items_at("matches"@) == Some(Seq::<JsonView>::empty())
            &&& asked ==> after.len() == before.len() + 1 && after.drop_last() == before && is_told(
                after.last(),
                e,
            )
            &&& !asked ==> after == before
        }),
{
    reveal_strlit("request_id");
    reveal_strlit("query");
    reveal_strlit("matches");
    assert("request_id"@.len() == 10 && "query"@.len() == 5 && "matches"@.len() == 7);
    let keep = |e: EventView| queried(payload, e);
    lemma_told(events, e, keep);
    lemma_is_told(e);
    field_is_found(
        query_reply(request_id, payload, snapshot, principal, Seq::empty()).body->Object_0,
        2,
    );
    field_is_found(query_reply(request_id, payload, snapshot, principal, events).body->Object_0, 2);
    field_is_found(
        query_reply(request_id, payload, snapshot, principal, events.push(e)).body->Object_0,
        2,
    );
    assert(told_events(events, keep).push(event_json(e)).drop_last() =~= told_events(events, keep));
}

/// A marker is asked for: its status and its kind are the ones that are asked
/// for, it does not end before the first frame and does not start behind the
/// last frame that are asked for, each where the request says so.
pub open spec fn is_asked_for(m: MarkerView, params: MarkerQueryParams) -> bool {
    &&& params.status is Some ==> m.status == params.status->0@
    &&& params.event_type is Some ==> m.event_type == params.event_type->0@
    &&& params.from_frame is Some ==> params.from_frame->0 <= m.end_frame
    &&& params.to_frame is Some ==> m.start_frame <= params.to_frame->0
}

proof fn lemma_selected(
    events: Seq<(Seq<char>, Option<MarkerView>)>,
    params: MarkerQueryParams,
    m: MarkerView,
)
    ensures
        selected_markers(events, params).to_multiset().count(m) == places(
            events.len(),
            |i: int|
                events[i].0 == "marker_emitted"@ && events[i].1 == Some(m) && is_asked_for(
                    m,
                    params,
                ),
        ).len(),
    decreases events.len(),
{
    broadcast use vstd::seq_lib::group_to_multiset_ensures;

    let here = |i: int|
        events[i].0 == "marker_emitted"@ && events[i].1 == Some(m) && is_asked_for(m, params);
    if events.len() == 0 {
        no_place_below_zero(here);
    } else {
        let shorter = events.drop_last();
        let before = selected_markers(shorter, params);
        lemma_selected(shorter, params, m);
        let n = shorter.len();
        same_places(
            n,
            |i: int|
                shorter[i].0 == "marker_emitted"@ && shorter[i].1 == Some(m) && is_asked_for(
                    m,
                    params,
                ),
            here,
        );
        next_place_counts(n, here);
        assert(events[n as int] == events.last());
        if let Some(last) = events.last().1 {
            assert(before.push(last).to_multiset() =~= before.to_multiset().insert(last));
            assert(params.asks_for(last) == is_asked_for(last, params));
        }
    }
}

/// The markers that a request is answered with are those that were emitted and
/// are asked for, each as often as it was emitted. They come in the order of the
/// frames at which they start, then of those at which they end.
pub proof fn markers_are_chosen_and_ordered(
    events: Seq<(Seq<char>, Option<MarkerView>)>,
    params: MarkerQueryParams,
)
    ensures
        ({
            let told = sorted::<AnalyzeMarker, ByFrames>(selected_markers(events, params));
            &&& forall|m: MarkerView| #[trigger]
                told.to_multiset().count(m) == places(
                    events.len(),
                    |i: int|
                        events[i].0 == "marker_emitted"@ && events[i].1 == Some(m) && is_asked_for(
                            m,
                            params,
                        ),
                ).len()
            &&& forall|i: int, j: int|
                #![trigger told[i], told[j]]
                0 <= i < j < told.len() ==> told[i].start_frame < told[j].start_frame || (
                told[i].start_frame == told[j].start_frame && told[i].end_frame
                    <= told[j].end_frame)
        }),
{
    let chosen = selected_markers(events, params);
    sorting_orders_and_permutes::<AnalyzeMarker, ByFrames>(chosen);
    let told = sorted::<AnalyzeMarker, ByFrames>(chosen);
    assert forall|m: MarkerView| #[trigger] told.to_multiset().count(m) == places(
        events.len(),
        |i: int|
            events[i].0 == "marker_emitted"@ && events[i].1 == Some(m) && is_asked_for(m, params),
    ).len() by {
        lemma_selected(events, params, m);
    }
    assert forall|i: int, j: int|
        #![trigger told[i], told[j]]
        0 <= i < j < told.len() implies told[i].start_frame < told[j].start_frame || (
    told[i].start_frame == told[j].start_frame && told[i].end_frame <= told[j].end_frame) by {
        assert(<AnalyzeMarker as Ranked<ByFrames>>::ranks_before(told[i], told[j]));
    }
}

/// A chunk's times are those that its event tells, and that of the event where
/// it tells none.
pub proof fn chunks_have_the_times_they_tell(p: JsonView, pts_ms: u64)
    ensures
        timing_told(p, pts_ms) is Some <==> p.unsigned_at("chunk_index"@) is Some,
        timing_told(p, pts_ms) matches Some(t) ==> {
            &&& p.unsigned_at("chunk_index"@) == Some(t.chunk_index)
            &&& p.unsigned_at("pts_start_ms"@) matches Some(ms) ==> t.pts_start_ms == ms
            &&& p.unsigned_at("pts_start_ms"@) is None ==> t.pts_start_ms == pts_ms
            &&& p.unsigned_at("pts_end_ms"@) matches Some(ms) ==> t.pts_end_ms == ms
            &&& p.unsigned_at("pts_end_ms"@) is None ==> t.pts_end_ms == pts_ms
        },
{
}

/// The owner of a run is told all its interactions and how many there are; any
/// other caller none.
pub proof fn interactions_are_told_to_the_owner(
    request_id: Seq<char>,
    run_id: Seq<char>,
    snapshot: Option<SnapshotView>,
    principal: Seq<char>,
    events: Seq<EventView>,
    index: Option<Seq<char>>,
)
    ensures
        ({
            let told = interactions_reply(request_id, run_id, snapshot, principal, events, index);
            let found = interactions_of(events, timings_in(events), index);
            &&& told.status == 200 <==> crate::ids::valid_run_id(run_id) && snapshot is Some
                && !snapshot->0.deleted && snapshot->0.principal_key == principal
            &&& told.status == 200 ==> {
                &&& told.body.text_at("run_id"@) == Some(run_id)
                &&& told.body.unsigned_at("count"@) == Some(found.len() as u64)
                &&& told.body.items_at("interactions"@) == Some(found)
            }
        }),
{
    crate::runs::runs_are_seen_by_their_owner(
        request_id,
        "invalid interactions request"@,
        run_id,
        snapshot,
        principal,
    );
    reveal_strlit("run_id");
    reveal_strlit("count");
    reveal_strlit("interactions");
    assert("run_id"@.len() == 6);
    assert("count"@.len() == 5);
    assert("interactions"@.len() == 12);
    let found = interactions_of(events, timings_in(events), index);
    let fields = seq![
        ("run_id"@, JsonView::Text(run_id)),
        ("count"@, number_view(found.len() as u64)),
        ("interactions"@, JsonView::Array(found)),
    ];
    crate::json::field_is_found(fields, 0);
    crate::json::field_is_found(fields, 1);
    crate::json::field_is_found(fields, 2);
}

} // verus!
