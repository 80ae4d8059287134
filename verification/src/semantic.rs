//! Markers: runs of frames with the same event, and the corrections that a
//! later run brings to an uncertain one.

use vstd::prelude::*;

use crate::digits::{hex, padded, to_hex_padded};
use crate::ieee::Single;
use crate::models::AnalyzeMarker;
use crate::places::{next_place_counts, no_place_below_zero, places};
use crate::sort::views;
use crate::text::{opt_text, owned, same};

verus! {

/// The event of one frame.
#[derive(Debug)]
pub struct MarkerInput {
    pub frame_index: u64,
    pub pts_ms: u64,
    pub event_type: String,
    pub confidence: Single,
}

/// What the event of one frame is.
pub ghost struct InputView {
    pub frame_index: u64,
    pub pts_ms: u64,
    pub event_type: Seq<char>,
    pub confidence: Single,
}

impl View for MarkerInput {
    type V = InputView;

    open spec fn view(&self) -> InputView {
        InputView {
            frame_index: self.frame_index,
            pts_ms: self.pts_ms,
            event_type: self.event_type@,
            confidence: self.confidence,
        }
    }
}

/// A run of frames with the same event.
#[derive(Debug)]
pub struct MarkerSegment {
    pub event_type: String,
    pub start_frame: u64,
    pub end_frame: u64,
    pub start_pts_ms: u64,
    pub end_pts_ms: u64,
    /// Where the run begins among the inputs.
    pub first: usize,
    /// How many inputs it takes.
    pub count: usize,
}

/// What a run of frames is.
pub ghost struct SegmentView {
    pub event_type: Seq<char>,
    pub start_frame: u64,
    pub end_frame: u64,
    pub start_pts_ms: u64,
    pub end_pts_ms: u64,
    pub first: int,
    pub count: int,
}

impl View for MarkerSegment {
    type V = SegmentView;

    open spec fn view(&self) -> SegmentView {
        SegmentView {
            event_type: self.event_type@,
            start_frame: self.start_frame,
            end_frame: self.end_frame,
            start_pts_ms: self.start_pts_ms,
            end_pts_ms: self.end_pts_ms,
            first: self.first as int,
            count: self.count as int,
        }
    }
}

/// A frame goes on with a run: the same event, and no frame left out.
pub open spec fn joins(s: SegmentView, input: InputView) -> bool {
    s.event_type == input.event_type && input.frame_index <= s.end_frame + 1
}

/// The run with one more frame.
pub open spec fn extended(s: SegmentView, input: InputView) -> SegmentView {
    SegmentView {
        end_frame: input.frame_index,
        end_pts_ms: input.pts_ms,
        count: s.count + 1,
        ..s
    }
}

/// The run that one frame begins.
pub open spec fn begun(input: InputView, first: int) -> SegmentView {
    SegmentView {
        event_type: input.event_type,
        start_frame: input.frame_index,
        end_frame: input.frame_index,
        start_pts_ms: input.pts_ms,
        end_pts_ms: input.pts_ms,
        first,
        count: 1,
    }
}

/// The runs that some frames form.
pub open spec fn segments_of(inputs: Seq<InputView>) -> Seq<SegmentView>
    decreases inputs.len(),
{
    if inputs.len() == 0 {
        Seq::empty()
    } else {
        let head = segments_of(inputs.drop_last());
        let input = inputs.last();
        if head.len() > 0 && joins(head.last(), input) {
            head.update(head.len() - 1, extended(head.last(), input))
        } else {
            head.push(begun(input, inputs.len() - 1))
        }
    }
}

/// The runs that some frames form.
pub fn segment_inputs(inputs: &Vec<MarkerInput>) -> (r: Vec<MarkerSegment>)
    ensures
        views(r@) == segments_of(views(inputs@)),
{
    let ghost all = views(inputs@);
    let mut out: Vec<MarkerSegment> = Vec::new();
    let mut i: usize = 0;
    assert(all.take(0) =~= Seq::empty());
    assert(views(out@) =~= Seq::empty());
    while i < inputs.len()
        invariant
            i <= inputs@.len(),
            all == views(inputs@),
            views(out@) == segments_of(all.take(i as int)),
            forall|k: int| 0 <= k < out@.len() ==> (#[trigger] out@[k]).count <= i,
        decreases inputs@.len() - i,
    {
        let input = &inputs[i];
        let ghost before = views(out@);
        assert(all.take(i + 1).drop_last() =~= all.take(i as int));
        assert(all.take(i + 1).last() == input@);
        let n: usize = out.len();
        let goes_on = if n == 0 {
            false
        } else {
            let s = &out[n - 1];
            assert(before.last() == s@);
            same(s.event_type.as_str(), input.event_type.as_str()) && input.frame_index
                <= s.end_frame.saturating_add(1)
        };
        if goes_on {
            let last = out.pop().unwrap();
            assert(before.last() == last@);
            let longer = MarkerSegment {
                event_type: last.event_type,
                start_frame: last.start_frame,
                end_frame: input.frame_index,
                start_pts_ms: last.start_pts_ms,
                end_pts_ms: input.pts_ms,
                first: last.first,
                count: last.count + 1,
            };
            out.push(longer);
            assert(views(out@) =~= before.update(before.len() - 1, extended(before.last(), input@)));
        } else {
            out.push(
                MarkerSegment {
                    event_type: input.event_type.clone(),
                    start_frame: input.frame_index,
                    end_frame: input.frame_index,
                    start_pts_ms: input.pts_ms,
                    end_pts_ms: input.pts_ms,
                    first: i,
                    count: 1,
                },
            );
            assert(views(out@) =~= before.push(begun(input@, i as int)));
        }
        i += 1;
    }
    assert(all.take(i as int) =~= all);
    out
}

/// The runs take all frames, each frame once and in order: every run begins
/// where the one before ends, the first at the beginning and the last up to the
/// end.
pub proof fn segments_cover_the_inputs(inputs: Seq<InputView>)
    ensures
        ({
            let s = segments_of(inputs);
            &&& (inputs.len() > 0 ==> s.len() > 0)
            &&& (forall|k: int| 0 <= k < s.len() ==> (#[trigger] s[k]).count > 0)
            &&& (forall|k: int|
                0 <= k < s.len() ==> (#[trigger] s[k]).first == (if k == 0 {
                    0
                } else {
                    s[k - 1].first + s[k - 1].count
                }))
            &&& (s.len() > 0 ==> s.last().first + s.last().count == inputs.len())
        }),
    decreases inputs.len(),
{
    if inputs.len() > 0 {
        segments_cover_the_inputs(inputs.drop_last());
    }
}

/// What `runs_are_longest_stretches_of_one_event` says of one run.
spec fn is_stretch(inputs: Seq<InputView>, s: SegmentView) -> bool {
    let last = s.first + s.count - 1;
    &&& 0 <= s.first <= last < inputs.len()
    &&& s.start_frame == inputs[s.first].frame_index
    &&& s.start_pts_ms == inputs[s.first].pts_ms
    &&& s.end_frame == inputs[last].frame_index
    &&& s.end_pts_ms == inputs[last].pts_ms
    &&& forall|i: int| s.first <= i <= last ==> (#[trigger] inputs[i]).event_type == s.event_type
    &&& forall|i: int, j: int|
        #![trigger inputs[i], inputs[j]]
        s.first <= i < j <= last && j == i + 1 ==> inputs[j].frame_index <= inputs[i].frame_index
            + 1
    &&& s.first > 0 ==> inputs[s.first].event_type != inputs[s.first - 1].event_type
        || inputs[s.first].frame_index > inputs[s.first - 1].frame_index + 1
}

proof fn lemma_stretch_stays(inputs: Seq<InputView>, s: SegmentView)
    requires
        inputs.len() > 0,
        is_stretch(inputs.drop_last(), s),
    ensures
        is_stretch(inputs, s),
{
    let shorter = inputs.drop_last();
    assert forall|i: int| 0 <= i < shorter.len() implies #[trigger] inputs[i] == shorter[i] by {}
}

proof fn lemma_stretch_grows(inputs: Seq<InputView>, s: SegmentView)
    requires
        inputs.len() > 0,
        is_stretch(inputs.drop_last(), s),
        s.first + s.count == inputs.len() - 1,
        joins(s, inputs.last()),
    ensures
        is_stretch(inputs, extended(s, inputs.last())),
{
    let shorter = inputs.drop_last();
    assert forall|i: int| 0 <= i < shorter.len() implies #[trigger] inputs[i] == shorter[i] by {}
}

proof fn lemma_run_of_frames(inputs: Seq<InputView>, k: int)
    requires
        0 <= k < segments_of(inputs).len(),
    ensures
        is_stretch(inputs, segments_of(inputs)[k]),
        inputs.len() > 0,
        segments_of(inputs).last().first + segments_of(inputs).last().count == inputs.len(),
    decreases inputs.len(),
{
    let shorter = inputs.drop_last();
    let head = segments_of(shorter);
    if head.len() > 0 {
        let at = if k < head.len() {
            k
        } else {
            head.len() - 1
        };
        lemma_run_of_frames(shorter, at);
        lemma_run_of_frames(shorter, head.len() - 1);
        lemma_stretch_stays(inputs, head[at]);
        if joins(head.last(), inputs.last()) {
            lemma_stretch_grows(inputs, head.last());
        }
    } else {
        lemma_some_run(shorter);
    }
}

proof fn lemma_some_run(inputs: Seq<InputView>)
    ensures
        inputs.len() > 0 ==> segments_of(inputs).len() > 0,
{
    if inputs.len() > 0 {
        assert(segments_of(inputs).len() > 0);
    }
}

/// A run is a longest stretch of frames of one event without a gap: it starts
/// and ends, in frames and in time, with its first and its last frame, every
/// frame in it has its event and leaves out none, and the frame before it has
/// another event or is too far away.
pub proof fn runs_are_longest_stretches_of_one_event(inputs: Seq<InputView>, k: int)
    requires
        0 <= k < segments_of(inputs).len(),
    ensures
        ({
            let s = segments_of(inputs)[k];
            let last = s.first + s.count - 1;
            &&& 0 <= s.first <= last < inputs.len()
            &&& s.start_frame == inputs[s.first].frame_index
            &&& s.start_pts_ms == inputs[s.first].pts_ms
            &&& s.end_frame == inputs[last].frame_index
            &&& s.end_pts_ms == inputs[last].pts_ms
            &&& forall|i: int|
                s.first <= i <= last ==> (#[trigger] inputs[i]).event_type == s.event_type
            &&& forall|i: int, j: int|
                #![trigger inputs[i], inputs[j]]
                s.first <= i < j <= last && j == i + 1 ==> inputs[j].frame_index
                    <= inputs[i].frame_index + 1
            &&& s.first > 0 ==> inputs[s.first].event_type != inputs[s.first - 1].event_type
                || inputs[s.first].frame_index > inputs[s.first - 1].frame_index + 1
            &&& k + 1 < segments_of(inputs).len() ==> segments_of(inputs)[k + 1].first == last + 1
            &&& k + 1 == segments_of(inputs).len() ==> last + 1 == inputs.len()
        }),
{
    lemma_run_of_frames(inputs, k);
    segments_cover_the_inputs(inputs);
}

/// A run of frames with how certain it is: by itself, and together with the run
/// behind it.
#[derive(Debug)]
pub struct RatedSegment {
    pub segment: MarkerSegment,
    pub confidence: Single,
    pub confidence_with_next: Single,
}

/// What a rated run is.
pub ghost struct RatedView {
    pub segment: SegmentView,
    pub confidence: Single,
    pub confidence_with_next: Single,
}

impl View for RatedSegment {
    type V = RatedView;

    open spec fn view(&self) -> RatedView {
        RatedView {
            segment: self.segment@,
            confidence: self.confidence,
            confidence_with_next: self.confidence_with_next,
        }
    }
}

/// When a run counts as uncertain, and how soon another corrects it.
#[derive(Clone, Copy, Debug, PartialEq, Eq, Structural)]
pub struct MarkerConfig {
    pub correction_window_frames: u64,
    pub provisional_confidence_threshold: Single,
}

impl Default for MarkerConfig {
    /// Three frames, and seven tenths.
    fn default() -> (r: Self)
        ensures
            r.correction_window_frames == 3,
            r.provisional_confidence_threshold.bits == 0x3f33_3333,
    {
        MarkerConfig {
            correction_window_frames: 3,
            provisional_confidence_threshold: Single { bits: 0x3f33_3333 },
        }
    }
}

/// A marker on the timeline of a run.
#[derive(Debug)]
pub struct SemanticMarker {
    pub marker_id: String,
    pub run_id: String,
    pub stream_id: String,
    pub event_type: String,
    pub status: String,
    pub start_frame: u64,
    pub end_frame: u64,
    pub start_pts_ms: u64,
    pub end_pts_ms: u64,
    pub confidence: Single,
    pub supersedes_marker_id: Option<String>,
}

/// What a marker is.
pub ghost struct MarkerView {
    pub marker_id: Seq<char>,
    pub run_id: Seq<char>,
    pub stream_id: Seq<char>,
    pub event_type: Seq<char>,
    pub status: Seq<char>,
    pub start_frame: u64,
    pub end_frame: u64,
    pub start_pts_ms: u64,
    pub end_pts_ms: u64,
    pub confidence: Single,
    pub supersedes_marker_id: Option<Seq<char>>,
}

impl View for SemanticMarker {
    type V = MarkerView;

    open spec fn view(&self) -> MarkerView {
        MarkerView {
            marker_id: self.marker_id@,
            run_id: self.run_id@,
            stream_id: self.stream_id@,
            event_type: self.event_type@,
            status: self.status@,
            start_frame: self.start_frame,
            end_frame: self.end_frame,
            start_pts_ms: self.start_pts_ms,
            end_pts_ms: self.end_pts_ms,
            confidence: self.confidence,
            supersedes_marker_id: opt_text(self.supersedes_marker_id),
        }
    }
}

impl View for AnalyzeMarker {
    type V = MarkerView;

    open spec fn view(&self) -> MarkerView {
        MarkerView {
            marker_id: self.marker_id@,
            run_id: self.run_id@,
            stream_id: self.stream_id@,
            event_type: self.event_type@,
            status: self.status@,
            start_frame: self.start_frame,
            end_frame: self.end_frame,
            start_pts_ms: self.start_pts_ms,
            end_pts_ms: self.end_pts_ms,
            confidence: self.confidence,
            supersedes_marker_id: opt_text(self.supersedes_marker_id),
        }
    }
}

/// The id of the marker of a run.
pub open spec fn marker_id(idx: nat) -> Seq<char> {
    "mk-"@ + padded(hex(idx), 8)
}

/// The id of the marker that corrects that of a run.
pub open spec fn final_marker_id(idx: nat) -> Seq<char> {
    "mkf-"@ + padded(hex(idx), 8)
}

/// A run is certain: confident enough, or a cut.
pub open spec fn is_exact(s: RatedView, config: MarkerConfig) -> bool {
    config.provisional_confidence_threshold.le(s.confidence) || s.segment.event_type
        == "scene_cut"@
}

/// A run corrects the one before it: the same event, soon enough.
pub open spec fn corrects(s: RatedView, next: RatedView, config: MarkerConfig) -> bool {
    next.segment.event_type == s.segment.event_type && (next.segment.start_frame
        <= s.segment.end_frame || next.segment.start_frame - s.segment.end_frame
        <= config.correction_window_frames)
}

/// The markers that the run at `idx` gives: its own, and, where it is
/// uncertain and the next run corrects it, the one that takes its place.
pub open spec fn markers_at(
    run_id: Seq<char>,
    stream_id: Seq<char>,
    segments: Seq<RatedView>,
    config: MarkerConfig,
    idx: int,
) -> Seq<MarkerView> {
    let s = segments[idx];
    let own = MarkerView {
        marker_id: marker_id(idx as nat),
        run_id,
        stream_id,
        event_type: s.segment.event_type,
        status: if is_exact(s, config) {
            "exact"@
        } else {
            "provisional"@
        },
        start_frame: s.segment.start_frame,
        end_frame: s.segment.end_frame,
        start_pts_ms: s.segment.start_pts_ms,
        end_pts_ms: s.segment.end_pts_ms,
        confidence: s.confidence,
        supersedes_marker_id: None,
    };
    if !is_exact(s, config) && idx + 1 < segments.len() && corrects(s, segments[idx + 1], config) {
        seq![
            own,
            MarkerView {
                marker_id: final_marker_id(idx as nat),
                status: "finalized"@,
                end_frame: segments[idx + 1].segment.end_frame,
                end_pts_ms: segments[idx + 1].segment.end_pts_ms,
                confidence: s.confidence_with_next,
                supersedes_marker_id: Some(marker_id(idx as nat)),
                ..own
            },
        ]
    } else {
        seq![own]
    }
}

/// The markers of the first `k` runs.
pub open spec fn lifecycle(
    run_id: Seq<char>,
    stream_id: Seq<char>,
    segments: Seq<RatedView>,
    config: MarkerConfig,
    k: int,
) -> Seq<MarkerView>
    decreases k,
{
    if k <= 0 {
        Seq::empty()
    } else {
        lifecycle(run_id, stream_id, segments, config, k - 1) + markers_at(
            run_id,
            stream_id,
            segments,
            config,
            k - 1,
        )
    }
}

fn numbered(prefix: &str, idx: usize) -> (r: String)
    ensures
        r@ == prefix@ + padded(hex(idx as nat), 8),
{
    let mut out = owned(prefix);
    out.push_str(to_hex_padded(idx as u64, 8).as_str());
    out
}

/// The markers of some runs.
pub fn build_marker_lifecycle(
    run_id: &str,
    stream_id: &str,
    segments: &Vec<RatedSegment>,
    config: &MarkerConfig,
) -> (r: Vec<SemanticMarker>)
    ensures
        views(r@) == lifecycle(
            run_id@,
            stream_id@,
            views(segments@),
            *config,
            segments@.len() as int,
        ),
        forall|i: int|
            0 <= i < r@.len() ==> {
                let m = lifecycle(
                    run_id@,
                    stream_id@,
                    views(segments@),
                    *config,
                    segments@.len() as int,
                )[i];
                &&& (#[trigger] r@[i]).start_frame == m.start_frame
                &&& r@[i].end_frame == m.end_frame
                &&& r@[i].start_pts_ms == m.start_pts_ms
                &&& r@[i].end_pts_ms == m.end_pts_ms
                &&& r@[i].status@ == m.status
                &&& r@[i].event_type@ == m.event_type
                &&& r@[i].marker_id@ == m.marker_id
                &&& r@[i].confidence == m.confidence
            },
{
    let ghost all = views(segments@);
    let mut out: Vec<SemanticMarker> = Vec::new();
    let mut idx: usize = 0;
    assert(views(out@) =~= Seq::empty());
    while idx < segments.len()
        invariant
            idx <= segments@.len(),
            all == views(segments@),
            views(out@) == lifecycle(run_id@, stream_id@, all, *config, idx as int),
        decreases segments@.len() - idx,
    {
        let rated = &segments[idx];
        let s = &rated.segment;
        let ghost before = views(out@);
        let ghost here = markers_at(run_id@, stream_id@, all, *config, idx as int);
        assert(all[idx as int] == rated@);
        let exact = config.provisional_confidence_threshold.at_most(rated.confidence) || same(
            s.event_type.as_str(),
            "scene_cut",
        );
        out.push(
            SemanticMarker {
                marker_id: numbered("mk-", idx),
                run_id: owned(run_id),
                stream_id: owned(stream_id),
                event_type: s.event_type.clone(),
                status: owned(
                    if exact {
                        "exact"
                    } else {
                        "provisional"
                    },
                ),
                start_frame: s.start_frame,
                end_frame: s.end_frame,
                start_pts_ms: s.start_pts_ms,
                end_pts_ms: s.end_pts_ms,
                confidence: rated.confidence,
                supersedes_marker_id: None,
            },
        );
        assert(views(out@) =~= before.push(here[0]));
        if !exact && idx + 1 < segments.len() {
            let next = &segments[idx + 1].segment;
            assert(all[idx + 1].segment == next@);
            if same(next.event_type.as_str(), s.event_type.as_str())
                && next.start_frame.saturating_sub(s.end_frame) <= config.correction_window_frames {
                out.push(
                    SemanticMarker {
                        marker_id: numbered("mkf-", idx),
                        run_id: owned(run_id),
                        stream_id: owned(stream_id),
                        event_type: s.event_type.clone(),
                        status: owned("finalized"),
                        start_frame: s.start_frame,
                        end_frame: next.end_frame,
                        start_pts_ms: s.start_pts_ms,
                        end_pts_ms: next.end_pts_ms,
                        confidence: rated.confidence_with_next,
                        supersedes_marker_id: Some(numbered("mk-", idx)),
                    },
                );
                assert(views(out@) =~= before.push(here[0]).push(here[1]));
            }
        }
        assert(views(out@) =~= before + here);
        idx += 1;
    }
    assert forall|i: int| 0 <= i < out@.len() implies views(out@)[i] == (#[trigger] out@[i])@ by {}
    out
}

/// Where the marker of the run at `idx` stands among the markers of the first
/// `k` runs.
proof fn lemma_marker_place(
    run_id: Seq<char>,
    stream_id: Seq<char>,
    segments: Seq<RatedView>,
    config: MarkerConfig,
    idx: int,
    k: int,
) -> (p: int)
    requires
        0 <= idx < k <= segments.len(),
    ensures
        ({
            let m = lifecycle(run_id, stream_id, segments, config, k);
            let here = markers_at(run_id, stream_id, segments, config, idx);
            &&& 0 <= p
            &&& p + here.len() <= m.len()
            &&& m[p] == here[0]
            &&& here.len() == 2 ==> m[p + 1] == here[1]
            &&& p + here.len() < m.len() ==> m[p + here.len()].supersedes_marker_id is None
        }),
    decreases k,
{
    let m = lifecycle(run_id, stream_id, segments, config, k);
    let head = lifecycle(run_id, stream_id, segments, config, k - 1);
    let last = markers_at(run_id, stream_id, segments, config, k - 1);
    let here = markers_at(run_id, stream_id, segments, config, idx);
    if idx == k - 1 {
        assert(m[head.len() as int] == here[0]);
        if here.len() == 2 {
            assert(m[head.len() as int + 1] == here[1]);
        }
        head.len() as int
    } else {
        let p = lemma_marker_place(run_id, stream_id, segments, config, idx, k - 1);
        assert(m[p] == head[p]);
        if here.len() == 2 {
            assert(m[p + 1] == head[p + 1]);
        }
        let behind = p + here.len() as int;
        if behind < head.len() {
            assert(m[behind] == head[behind]);
        } else {
            assert(m[behind] == last[0]);
        }
        p
    }
}

/// Every run has its marker, which spans the run. The marker is exact where the
/// run is confident enough or a cut, and else provisional. Where a provisional
/// run is followed by one of the same event that begins soon enough, a finalized
/// marker stands right behind its own: it takes the place of that one, starts
/// where that one starts and ends, in frames and in time, where the following
/// run ends. Behind any other marker stands none that corrects it.
pub proof fn runs_are_marked_and_corrected(
    run_id: Seq<char>,
    stream_id: Seq<char>,
    segments: Seq<RatedView>,
    config: MarkerConfig,
    idx: int,
) -> (p: int)
    requires
        0 <= idx < segments.len(),
    ensures
        ({
            let m = lifecycle(run_id, stream_id, segments, config, segments.len() as int);
            let s = segments[idx].segment;
            let next = segments[idx + 1].segment;
            let sure = config.provisional_confidence_threshold.le(segments[idx].confidence)
                || s.event_type == "scene_cut"@;
            let corrected = !sure && idx + 1 < segments.len() && next.event_type == s.event_type
                && next.start_frame - s.end_frame <= config.correction_window_frames;
            &&& 0 <= p < m.len()
            &&& m[p].run_id == run_id && m[p].stream_id == stream_id
            &&& m[p].event_type == s.event_type
            &&& m[p].start_frame == s.start_frame && m[p].end_frame == s.end_frame
            &&& m[p].start_pts_ms == s.start_pts_ms && m[p].end_pts_ms == s.end_pts_ms
            &&& m[p].confidence == segments[idx].confidence
            &&& m[p].supersedes_marker_id is None
            &&& sure ==> m[p].status == "exact"@
            &&& !sure ==> m[p].status == "provisional"@
            &&& corrected ==> {
                &&& p + 1 < m.len()
                &&& m[p + 1].status == "finalized"@
                &&& m[p + 1].supersedes_marker_id == Some(m[p].marker_id)
                &&& m[p + 1].run_id == run_id && m[p + 1].stream_id == stream_id
                &&& m[p + 1].event_type == s.event_type
                &&& m[p + 1].start_frame == s.start_frame && m[p + 1].end_frame == next.end_frame
                &&& m[p + 1].start_pts_ms == s.start_pts_ms
                &&& m[p + 1].end_pts_ms == next.end_pts_ms
                &&& m[p + 1].confidence == segments[idx].confidence_with_next
            }
            &&& !corrected && p + 1 < m.len() ==> m[p + 1].supersedes_marker_id is None
        }),
{
    lemma_marker_place(run_id, stream_id, segments, config, idx, segments.len() as int)
}

/// A marker that takes the place of another covers two runs: it starts where the
/// one before it starts, which spans the first of them, and ends where the
/// second ends.
pub proof fn finalized_markers_cover_both_runs(
    run_id: Seq<char>,
    stream_id: Seq<char>,
    segments: Seq<RatedView>,
    config: MarkerConfig,
    k: int,
    i: int,
) -> (idx: int)
    requires
        0 <= k <= segments.len(),
        0 <= i < lifecycle(run_id, stream_id, segments, config, k).len(),
        lifecycle(run_id, stream_id, segments, config, k)[i].supersedes_marker_id is Some,
    ensures
        ({
            let m = lifecycle(run_id, stream_id, segments, config, k);
            &&& i > 0
            &&& 0 <= idx < segments.len() - 1
            &&& m[i].supersedes_marker_id == Some(m[i - 1].marker_id)
            &&& m[i - 1].start_frame == m[i].start_frame == segments[idx].segment.start_frame
            &&& m[i - 1].start_pts_ms == m[i].start_pts_ms == segments[idx].segment.start_pts_ms
            &&& m[i - 1].end_frame == segments[idx].segment.end_frame
            &&& m[i - 1].end_pts_ms == segments[idx].segment.end_pts_ms
            &&& m[i].end_frame == segments[idx + 1].segment.end_frame
            &&& m[i].end_pts_ms == segments[idx + 1].segment.end_pts_ms
            &&& segments[idx].segment.event_type == m[i].event_type
            &&& segments[idx + 1].segment.event_type == m[i].event_type
        }),
    decreases k,
{
    let m = lifecycle(run_id, stream_id, segments, config, k);
    if k <= 0 {
        0
    } else {
        let head = lifecycle(run_id, stream_id, segments, config, k - 1);
        let here = markers_at(run_id, stream_id, segments, config, k - 1);
        assert(m == head + here);
        if i < head.len() {
            assert(m[i] == head[i]);
            let idx = finalized_markers_cover_both_runs(
                run_id,
                stream_id,
                segments,
                config,
                k - 1,
                i,
            );
            assert(m[i - 1] == head[i - 1]);
            idx
        } else {
            assert(m[i] == here[i - head.len()]);
            assert(i == head.len() + 1);
            assert(m[i - 1] == here[0]);
            k - 1
        }
    }
}

/// There are as many markers as runs, and one more for each run that the next
/// one corrects.
pub proof fn markers_are_as_many_as_runs_and_corrections(
    run_id: Seq<char>,
    stream_id: Seq<char>,
    segments: Seq<RatedView>,
    config: MarkerConfig,
)
    ensures
        lifecycle(run_id, stream_id, segments, config, segments.len() as int).len() == segments.len()
            + places(
            segments.len(),
            |i: int|
                {
                    let s = segments[i].segment;
                    let next = segments[i + 1].segment;
                    &&& i + 1 < segments.len()
                    &&& !config.provisional_confidence_threshold.le(segments[i].confidence)
                    &&& s.event_type != "scene_cut"@
                    &&& next.event_type == s.event_type
                    &&& next.start_frame - s.end_frame <= config.correction_window_frames
                },
        ).len(),
{
    let corrected = |i: int|
        {
            let s = segments[i].segment;
            let next = segments[i + 1].segment;
            &&& i + 1 < segments.len()
            &&& !config.provisional_confidence_threshold.le(segments[i].confidence)
            &&& s.event_type != "scene_cut"@
            &&& next.event_type == s.event_type
            &&& next.start_frame - s.end_frame <= config.correction_window_frames
        };
    lemma_marker_count(run_id, stream_id, segments, config, corrected, segments.len() as int);
}

proof fn lemma_marker_count(
    run_id: Seq<char>,
    stream_id: Seq<char>,
    segments: Seq<RatedView>,
    config: MarkerConfig,
    corrected: spec_fn(int) -> bool,
    k: int,
)
    requires
        0 <= k <= segments.len(),
        forall|i: int|
            #![trigger corrected(i)]
            0 <= i < segments.len() ==> corrected(i) == (i + 1 < segments.len() && !is_exact(
                segments[i],
                config,
            ) && corrects(segments[i], segments[i + 1], config)),
    ensures
        lifecycle(run_id, stream_id, segments, config, k).len() == k + places(
            k as nat,
            corrected,
        ).len(),
    decreases k,
{
    if k == 0 {
        no_place_below_zero(corrected);
    } else {
        lemma_marker_count(run_id, stream_id, segments, config, corrected, k - 1);
        next_place_counts((k - 1) as nat, corrected);
    }
}

/// Every marker that takes the place of another comes right behind it, and the
/// one it replaces was uncertain and of the same event.
pub proof fn corrections_follow_what_they_correct(
    run_id: Seq<char>,
    stream_id: Seq<char>,
    segments: Seq<RatedView>,
    config: MarkerConfig,
    k: int,
)
    requires
        0 <= k <= segments.len(),
    ensures
        ({
            let m = lifecycle(run_id, stream_id, segments, config, k);
            forall|i: int|
                0 <= i < m.len() && (#[trigger] m[i]).supersedes_marker_id is Some ==> i > 0
                    && m[i].supersedes_marker_id == Some(m[i - 1].marker_id) && m[i - 1].status
                    == "provisional"@ && m[i].status == "finalized"@ && m[i - 1].event_type
                    == m[i].event_type
        }),
    decreases k,
{
    if k > 0 {
        corrections_follow_what_they_correct(run_id, stream_id, segments, config, k - 1);
        let head = lifecycle(run_id, stream_id, segments, config, k - 1);
        let here = markers_at(run_id, stream_id, segments, config, k - 1);
        let m = head + here;
        assert forall|i: int|
            0 <= i < m.len() && (#[trigger] m[i]).supersedes_marker_id is Some implies i > 0
            && m[i].supersedes_marker_id == Some(m[i - 1].marker_id) && m[i - 1].status
            == "provisional"@ && m[i].status == "finalized"@ && m[i - 1].event_type
            == m[i].event_type by {
            if i < head.len() {
                assert(m[i] == head[i]);
                assert(m[i - 1] == head[i - 1]);
            } else {
                assert(m[i] == here[i - head.len()]);
                assert(i == head.len() + 1);
                assert(m[i - 1] == here[0]);
            }
        }
    }
}

/// A marker as the API shows it.
pub fn semantic_marker_to_api_marker(marker: SemanticMarker) -> (r: AnalyzeMarker)
    ensures
        r@ == marker@,
{
    AnalyzeMarker {
        marker_id: marker.marker_id,
        run_id: marker.run_id,
        stream_id: marker.stream_id,
        event_type: marker.event_type,
        status: marker.status,
        start_frame: marker.start_frame,
        end_frame: marker.end_frame,
        start_pts_ms: marker.start_pts_ms,
        end_pts_ms: marker.end_pts_ms,
        confidence: marker.confidence,
        supersedes_marker_id: marker.supersedes_marker_id,
    }
}

} // verus!
