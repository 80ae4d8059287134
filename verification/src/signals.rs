//! Frame signals: the cheap measurements of frames that an ingest leaves in the
//! log, and what follows from their times.

use vstd::prelude::*;

use crate::ieee::{single, Single};
use crate::json::{json_views, opt_json, parse_json, read_json, Json, JsonView};
use crate::models::{sampling_policy_of, SamplingPolicy};
use crate::places::{next_place_counts, no_place_below_zero, places, same_places};
use crate::text::{owned, same};
use crate::timeline::{event_views, find_last, last_of_kind, EventView, TimelineEvent};

verus! {

/// The measurements of one frame.
#[derive(Clone, Copy, Debug, PartialEq, Eq, Structural)]
pub struct FrameSignal {
    pub frame_index: u64,
    pub pts_ms: u64,
    pub perceptual_hash: u64,
    pub luma_mean: Single,
    pub flicker_score: Single,
    pub ghosting_score: Single,
    pub noise_variance_score: Single,
}

/// A value between zero and one.
pub open spec fn in_unit(s: Single) -> bool {
    single(0).le(s) && s.le(single(0x3f80_0000))
}

/// Whether a value is between zero and one.
pub fn is_unit(s: Single) -> (r: bool)
    ensures
        r == in_unit(s),
{
    s.within(Single { bits: 0 }, Single { bits: 0x3f80_0000 })
}

/// All measurements of a frame that must be between zero and one are.
pub open spec fn normalized(luma: Single, flicker: Single, ghosting: Single, noise: Single) -> bool {
    in_unit(luma) && in_unit(flicker) && in_unit(ghosting) && in_unit(noise)
}

/// Whether all measurements of a frame that must be between zero and one are.
pub fn is_normalized(luma: Single, flicker: Single, ghosting: Single, noise: Single) -> (r: bool)
    ensures
        r == normalized(luma, flicker, ghosting, noise),
{
    is_unit(luma) && is_unit(flicker) && is_unit(ghosting) && is_unit(noise)
}

/// The frame that an item of a decoded payload tells of, or what is wrong with
/// it.
pub open spec fn signal_of(v: JsonView) -> Result<FrameSignal, Seq<char>> {
    if v.unsigned_at("frame_index"@) is None {
        Err("decoded signal is missing frame_index"@)
    } else if v.unsigned_at("pts_ms"@) is None {
        Err("decoded signal is missing pts_ms"@)
    } else if v.unsigned_at("perceptual_hash"@) is None {
        Err("decoded signal is missing perceptual_hash"@)
    } else if v.double_at("luma_mean"@) is None {
        Err("decoded signal is missing luma_mean"@)
    } else if v.double_at("flicker_score"@) is None {
        Err("decoded signal is missing flicker_score"@)
    } else if v.double_at("ghosting_score"@) is None {
        Err("decoded signal is missing ghosting_score"@)
    } else if v.double_at("noise_variance_score"@) is None {
        Err("decoded signal is missing noise_variance_score"@)
    } else {
        let luma = v.double_at("luma_mean"@)->0.narrowed();
        let flicker = v.double_at("flicker_score"@)->0.narrowed();
        let ghosting = v.double_at("ghosting_score"@)->0.narrowed();
        let noise = v.double_at("noise_variance_score"@)->0.narrowed();
        if !normalized(luma, flicker, ghosting, noise) {
            Err("decoded signal values must be normalized to [0.0, 1.0]"@)
        } else {
            Ok(
                FrameSignal {
                    frame_index: v.unsigned_at("frame_index"@)->0,
                    pts_ms: v.unsigned_at("pts_ms"@)->0,
                    perceptual_hash: v.unsigned_at("perceptual_hash"@)->0,
                    luma_mean: luma,
                    flicker_score: flicker,
                    ghosting_score: ghosting,
                    noise_variance_score: noise,
                },
            )
        }
    }
}

fn read_signal(v: &Json) -> (r: Result<FrameSignal, &'static str>)
    ensures
        match r {
            Ok(s) => signal_of(v@) == Ok::<FrameSignal, Seq<char>>(s),
            Err(m) => signal_of(v@) == Err::<FrameSignal, Seq<char>>(m@),
        },
{
    let frame_index = match v.unsigned_at("frame_index") {
        Some(n) => n,
        None => {
            return Err("decoded signal is missing frame_index");
        },
    };
    let pts_ms = match v.unsigned_at("pts_ms") {
        Some(n) => n,
        None => {
            return Err("decoded signal is missing pts_ms");
        },
    };
    let perceptual_hash = match v.unsigned_at("perceptual_hash") {
        Some(n) => n,
        None => {
            return Err("decoded signal is missing perceptual_hash");
        },
    };
    let luma_mean = match v.double_at("luma_mean") {
        Some(d) => d.narrow(),
        None => {
            return Err("decoded signal is missing luma_mean");
        },
    };
    let flicker_score = match v.double_at("flicker_score") {
        Some(d) => d.narrow(),
        None => {
            return Err("decoded signal is missing flicker_score");
        },
    };
    let ghosting_score = match v.double_at("ghosting_score") {
        Some(d) => d.narrow(),
        None => {
            return Err("decoded signal is missing ghosting_score");
        },
    };
    let noise_variance_score = match v.double_at("noise_variance_score") {
        Some(d) => d.narrow(),
        None => {
            return Err("decoded signal is missing noise_variance_score");
        },
    };
    if !is_normalized(luma_mean, flicker_score, ghosting_score, noise_variance_score) {
        return Err("decoded signal values must be normalized to [0.0, 1.0]");
    }
    Ok(
        FrameSignal {
            frame_index,
            pts_ms,
            perceptual_hash,
            luma_mean,
            flicker_score,
            ghosting_score,
            noise_variance_score,
        },
    )
}

/// The frames that some items tell of, or what is wrong with the first that
/// cannot be read.
pub open spec fn signals_of(items: Seq<JsonView>) -> Result<Seq<FrameSignal>, Seq<char>>
    decreases items.len(),
{
    if items.len() == 0 {
        Ok(Seq::empty())
    } else {
        match signals_of(items.drop_last()) {
            Err(m) => Err(m),
            Ok(list) => match signal_of(items.last()) {
                Ok(s) => Ok(list.push(s)),
                Err(m) => Err(m),
            },
        }
    }
}

proof fn lemma_signals_fail(items: Seq<JsonView>, k: int, m: Seq<char>)
    requires
        0 <= k <= items.len(),
        signals_of(items.take(k)) == Err::<Seq<FrameSignal>, Seq<char>>(m),
    ensures
        signals_of(items) == Err::<Seq<FrameSignal>, Seq<char>>(m),
    decreases items.len() - k,
{
    if k == items.len() {
        assert(items.take(k) =~= items);
    } else {
        assert(items.drop_last().take(k) =~= items.take(k));
        lemma_signals_fail(items.drop_last(), k, m);
    }
}

fn read_signals(items: &Vec<Json>) -> (r: Result<Vec<FrameSignal>, &'static str>)
    ensures
        match r {
            Ok(list) => signals_of(json_views(items@)) == Ok::<Seq<FrameSignal>, Seq<char>>(list@),
            Err(m) => signals_of(json_views(items@)) == Err::<Seq<FrameSignal>, Seq<char>>(m@),
        },
{
    let ghost all = json_views(items@);
    let mut out: Vec<FrameSignal> = Vec::new();
    let mut i: usize = 0;
    assert(all.take(0) =~= Seq::empty());
    while i < items.len()
        invariant
            i <= items@.len(),
            all == json_views(items@),
            signals_of(all.take(i as int)) == Ok::<Seq<FrameSignal>, Seq<char>>(out@),
        decreases items@.len() - i,
    {
        assert(all.take(i + 1).drop_last() =~= all.take(i as int));
        assert(all.take(i + 1).last() == items@[i as int]@);
        match read_signal(&items[i]) {
            Ok(s) => {
                out.push(s);
            },
            Err(m) => {
                proof {
                    lemma_signals_fail(all, i + 1, m@);
                }
                return Err(m);
            },
        }
        i += 1;
    }
    assert(all.take(i as int) =~= all);
    Ok(out)
}

// ---------------------------------------------------------------- spacing
/// The time between frames that come later than the one before, summed, and
/// how many such frames there are.
#[derive(Clone, Copy, Debug, PartialEq, Eq, Structural)]
pub struct FrameSpacing {
    pub sum_ms: u128,
    pub count: u64,
}

/// The time from one frame to the next; zero where it does not come later.
pub open spec fn step_ms(a: FrameSignal, b: FrameSignal) -> int {
    if b.pts_ms > a.pts_ms {
        b.pts_ms - a.pts_ms
    } else {
        0
    }
}

/// The summed time between frames that come later than the one before.
pub open spec fn spacing_sum(s: Seq<FrameSignal>) -> int
    decreases s.len(),
{
    if s.len() < 2 {
        0
    } else {
        spacing_sum(s.drop_last()) + step_ms(s[s.len() - 2], s.last())
    }
}

/// How many frames come later than the one before.
pub open spec fn spacing_count(s: Seq<FrameSignal>) -> int
    decreases s.len(),
{
    if s.len() < 2 {
        0
    } else {
        spacing_count(s.drop_last()) + if step_ms(s[s.len() - 2], s.last()) > 0 {
            1int
        } else {
            0
        }
    }
}

/// What the times of frames tell of the rate of sampling: the summed spacing
/// and its count, whose quotient is the mean spacing. `None` where no frame
/// comes later than the one before.
pub fn estimate_sample_fps(signals: &Vec<FrameSignal>) -> (r: Option<FrameSpacing>)
    ensures
        match r {
            Some(f) => f.sum_ms == spacing_sum(signals@) && f.count == spacing_count(signals@)
                && f.count > 0,
            None => spacing_count(signals@) == 0,
        },
{
    let n: usize = signals.len();
    if n < 2 {
        return None;
    }
    let mut sum_ms: u128 = 0;
    let mut count: u64 = 0;
    let mut i: usize = 1;
    while i < n
        invariant
            1 <= i <= n,
            n == signals@.len(),
            sum_ms == spacing_sum(signals@.take(i as int)),
            count == spacing_count(signals@.take(i as int)),
            count < i,
            sum_ms <= i * 0xffff_ffff_ffff_ffff,
        decreases n - i,
    {
        let delta: u64 = signals[i].pts_ms.saturating_sub(signals[i - 1].pts_ms);
        let ghost t = signals@.take(i + 1);
        assert(t.drop_last() =~= signals@.take(i as int));
        assert(t[t.len() - 2] == signals@[i - 1]);
        assert(t.last() == signals@[i as int]);
        assert(i * 0xffff_ffff_ffff_ffff + 0xffff_ffff_ffff_ffff <= 0xffff_ffff_ffff_ffff_ffff_ffff_ffff_ffff)
            by (nonlinear_arith)
            requires
                0 <= i < 0xffff_ffff_ffff_ffff,
        ;
        if delta > 0 {
            sum_ms = sum_ms + delta as u128;
            count = count + 1;
        }
        assert((i + 1) * 0xffff_ffff_ffff_ffff == i * 0xffff_ffff_ffff_ffff + 0xffff_ffff_ffff_ffff)
            by (nonlinear_arith);
        i += 1;
    }
    assert(signals@.take(n as int) =~= signals@);
    if count == 0 {
        None
    } else {
        Some(FrameSpacing { sum_ms, count })
    }
}

/// The least and the greatest rate of sampling, one fifth and 120.
pub open spec fn rate_within_bounds(s: Single) -> Single {
    s.clamped(single(0x3e4c_cccd), single(0x42f0_0000))
}

/// The rate of a source kept between one fifth and 120 frames per second.
pub fn adaptive_sample_fps(source_fps: Single) -> (r: Single)
    ensures
        r == rate_within_bounds(source_fps),
{
    source_fps.clamp(Single { bits: 0x3e4c_cccd }, Single { bits: 0x42f0_0000 })
}

/// A rate of sampling that a request may ask for.
pub open spec fn is_rate(s: Single) -> bool {
    single(0x3e4c_cccd).le(s) && s.le(single(0x42f0_0000))
}

/// Whether a request may ask for a rate of sampling.
pub fn allowed_rate(s: Single) -> (r: bool)
    ensures
        r == is_rate(s),
{
    s.within(Single { bits: 0x3e4c_cccd }, Single { bits: 0x42f0_0000 })
}

// ---------------------------------------------------------------- payload
/// How the rate of sampling is known.
#[derive(Clone, Copy, Debug, PartialEq, Eq, Structural)]
pub enum SampleRate {
    /// Written down.
    Given(Single),
    /// To be worked out from the spacing of frames.
    Spaced(FrameSpacing),
    /// Not at all; one frame per second is taken.
    Unknown,
}

/// How the rate of sampling of some frames is known.
pub open spec fn rate_from(given: Option<Single>, signals: Seq<FrameSignal>) -> SampleRate {
    match given {
        Some(s) => SampleRate::Given(s),
        None => if spacing_count(signals) == 0 {
            SampleRate::Unknown
        } else {
            SampleRate::Spaced(
                FrameSpacing {
                    sum_ms: spacing_sum(signals) as u128,
                    count: spacing_count(signals) as u64,
                },
            )
        },
    }
}

/// How the rate of sampling of some frames is known.
pub fn sample_rate(given: Option<Single>, signals: &Vec<FrameSignal>) -> (r: SampleRate)
    ensures
        r == rate_from(given, signals@),
{
    match given {
        Some(s) => SampleRate::Given(s),
        None => match estimate_sample_fps(signals) {
            Some(spacing) => SampleRate::Spaced(spacing),
            None => SampleRate::Unknown,
        },
    }
}

/// The frames of an ingest.
#[derive(Debug)]
pub struct DecodedSignals {
    pub signals: Vec<FrameSignal>,
    pub sampling_policy: SamplingPolicy,
    pub sample_rate: SampleRate,
    /// The coordinates of the frames as the log keeps them.
    pub coordinates: Option<Json>,
}

/// What the frames of an ingest are.
pub ghost struct DecodedView {
    pub signals: Seq<FrameSignal>,
    pub sampling_policy: SamplingPolicy,
    pub sample_rate: SampleRate,
    pub coordinates: Option<JsonView>,
}

impl View for DecodedSignals {
    type V = DecodedView;

    open spec fn view(&self) -> DecodedView {
        DecodedView {
            signals: self.signals@,
            sampling_policy: self.sampling_policy,
            sample_rate: self.sample_rate,
            coordinates: opt_json(self.coordinates),
        }
    }
}

/// The schema that the coordinates of frames follow.
pub const IMAGE_COORDINATE_SCHEMA: &'static str = "vidarax.image.v1";

/// A payload says that its coordinates follow the schema.
pub open spec fn has_schema(payload: JsonView) -> bool {
    payload.text_at("coordinate_schema"@) == Some(IMAGE_COORDINATE_SCHEMA@)
}

fn names_schema(payload: &Json) -> (r: bool)
    ensures
        r == has_schema(payload@),
{
    match payload.text_at("coordinate_schema") {
        Some(s) => same(s, IMAGE_COORDINATE_SCHEMA),
        None => false,
    }
}

/// What the coordinates in a payload are, as far as they are to be read.
pub open spec fn coordinates_in(payload: JsonView) -> Option<JsonView> {
    if has_schema(payload) {
        payload.get("coordinates"@)
    } else {
        None
    }
}

/// The frames that a decoded payload tells of, or what is wrong with it.
/// `readable` says whether its coordinates, where they follow the schema, are
/// those of frames.
pub open spec fn decoded_of(payload: JsonView, readable: bool) -> Result<DecodedView, Seq<char>> {
    let items = payload.items_at("signals"@);
    match sampling_policy_of(payload.text_at("sampling_policy"@)) {
        None => Err("sampling_policy must be one of: source_fps_adaptive, fixed"@),
        Some(policy) => match items {
            None => Err("decoded ingest payload is missing signals array"@),
            Some(list) => if list.len() == 0 {
                Err("decoded ingest payload contains no frame signals"@)
            } else if list.len() > 500_000 {
                Err("decoded ingest frame signals exceed limit of 500000"@)
            } else {
                match signals_of(list) {
                    Err(m) => Err(m),
                    Ok(signals) => if has_schema(payload) && coordinates_in(payload) is None {
                        Err("decoded ingest payload is missing coordinates"@)
                    } else if has_schema(payload) && !readable {
                        Err("decoded ingest coordinates are invalid"@)
                    } else {
                        Ok(
                            DecodedView {
                                signals,
                                sampling_policy: policy,
                                sample_rate: rate_from(
                                    match payload.double_at("sample_fps"@) {
                                        Some(d) => Some(d.narrowed()),
                                        None => None,
                                    },
                                    signals,
                                ),
                                coordinates: coordinates_in(payload),
                            },
                        )
                    },
                }
            },
        },
    }
}

/// The frames that a decoded payload tells of, or what is wrong with it.
pub fn decoded_signals(payload: &Json, readable: bool) -> (r: Result<DecodedSignals, String>)
    ensures
        match r {
            Ok(d) => decoded_of(payload@, readable) == Ok::<DecodedView, Seq<char>>(d@),
            Err(m) => decoded_of(payload@, readable) == Err::<DecodedView, Seq<char>>(m@),
        },
{
    let sampling_policy = match SamplingPolicy::parse(payload.text_at("sampling_policy")) {
        Ok(p) => p,
        Err(m) => {
            return Err(owned(m));
        },
    };
    let items = match payload.items_at("signals") {
        Some(items) => items,
        None => {
            return Err(owned("decoded ingest payload is missing signals array"));
        },
    };
    if items.is_empty() {
        return Err(owned("decoded ingest payload contains no frame signals"));
    }
    if items.len() > 500_000 {
        return Err(owned("decoded ingest frame signals exceed limit of 500000"));
    }
    let signals = match read_signals(items) {
        Ok(s) => s,
        Err(m) => {
            return Err(owned(m));
        },
    };
    let given = match payload.double_at("sample_fps") {
        Some(d) => Some(d.narrow()),
        None => None,
    };
    let rate = sample_rate(given, &signals);
    let coordinates = if names_schema(payload) {
        match payload.get("coordinates") {
            Some(v) => {
                if !readable {
                    return Err(owned("decoded ingest coordinates are invalid"));
                }
                Some(v.copy())
            },
            None => {
                return Err(owned("decoded ingest payload is missing coordinates"));
            },
        }
    } else {
        None
    };
    Ok(DecodedSignals { signals, sampling_policy, sample_rate: rate, coordinates })
}

/// The coordinates that the last ingest in a log left, as far as they are to be
/// read.
pub open spec fn kept_coordinates(events: Seq<EventView>) -> Option<JsonView> {
    match last_of_kind(events, "frames_decoded"@) {
        None => None,
        Some(e) => match read_json(e.payload) {
            None => None,
            Some(payload) => coordinates_in(payload),
        },
    }
}

/// The coordinates that the last ingest in a log left, as far as they are to be
/// read. Whether they are those of frames is for the caller to find out before
/// the frames are loaded.
pub fn last_coordinates(events: &Vec<TimelineEvent>) -> (r: Option<Json>)
    ensures
        opt_json(r) == kept_coordinates(event_views(events@)),
{
    let at = match find_last(events, "frames_decoded") {
        Some(i) => i,
        None => {
            return None;
        },
    };
    match parse_json(events[at].payload.as_str()) {
        Some(payload) => if names_schema(&payload) {
            match payload.get("coordinates") {
                Some(v) => Some(v.copy()),
                None => None,
            }
        } else {
            None
        },
        None => None,
    }
}

/// The frames of the last ingest in a log, or why there are none. `readable`
/// says whether the coordinates that the ingest left are those of frames.
pub open spec fn loaded(events: Seq<EventView>, readable: bool) -> Result<DecodedView, Seq<char>> {
    match last_of_kind(events, "frames_decoded"@) {
        None => Err("frames must be provided when no decoded ingest frames exist"@),
        Some(e) => match read_json(e.payload) {
            None => Err("decoded ingest payload is invalid json"@),
            Some(payload) => decoded_of(payload, readable),
        },
    }
}

/// The frames of the last ingest in a log, or why there are none.
pub fn load_decoded_signals_from_events(events: &Vec<TimelineEvent>, readable: bool) -> (r: Result<
    DecodedSignals,
    String,
>)
    ensures
        match r {
            Ok(d) => loaded(event_views(events@), readable) == Ok::<DecodedView, Seq<char>>(d@),
            Err(m) => loaded(event_views(events@), readable) == Err::<DecodedView, Seq<char>>(m@),
        },
{
    let at = match find_last(events, "frames_decoded") {
        Some(i) => i,
        None => {
            return Err(owned("frames must be provided when no decoded ingest frames exist"));
        },
    };
    match parse_json(events[at].payload.as_str()) {
        Some(payload) => decoded_signals(&payload, readable),
        None => Err(owned("decoded ingest payload is invalid json")),
    }
}

/// Every frame that is loaded has its measurements between zero and one.
pub proof fn loaded_frames_are_normalized(items: Seq<JsonView>, list: Seq<FrameSignal>, i: int)
    requires
        signals_of(items) == Ok::<Seq<FrameSignal>, Seq<char>>(list),
        0 <= i < list.len(),
    ensures
        normalized(
            list[i].luma_mean,
            list[i].flicker_score,
            list[i].ghosting_score,
            list[i].noise_variance_score,
        ),
        list.len() == items.len(),
    decreases items.len(),
{
    let head = signals_of(items.drop_last())->Ok_0;
    lemma_signals_length(items.drop_last(), head);
    if i < head.len() {
        loaded_frames_are_normalized(items.drop_last(), head, i);
    }
}

proof fn lemma_signals_length(items: Seq<JsonView>, list: Seq<FrameSignal>)
    requires
        signals_of(items) == Ok::<Seq<FrameSignal>, Seq<char>>(list),
    ensures
        list.len() == items.len(),
    decreases items.len(),
{
    if items.len() > 0 {
        lemma_signals_length(items.drop_last(), signals_of(items.drop_last())->Ok_0);
    }
}

/// Where no frame comes earlier than the one before, the spacings sum up to the
/// time from the first frame to the last, and as many are counted as there are
/// frames that come later than the one before.
pub proof fn spacings_sum_up_to_the_whole(s: Seq<FrameSignal>)
    requires
        s.len() > 0,
        forall|i: int, j: int|
            0 <= i < j < s.len() ==> (#[trigger] s[i]).pts_ms <= (#[trigger] s[j]).pts_ms,
    ensures
        spacing_sum(s) == s.last().pts_ms - s[0].pts_ms,
        spacing_count(s) == places(
            s.len(),
            |i: int| 0 < i && s[i - 1].pts_ms < s[i].pts_ms,
        ).len(),
    decreases s.len(),
{
    let later = |i: int| 0 < i && s[i - 1].pts_ms < s[i].pts_ms;
    if s.len() == 1 {
        no_place_below_zero(later);
        next_place_counts(0, later);
    } else {
        let t = s.drop_last();
        spacings_sum_up_to_the_whole(t);
        let n = t.len();
        same_places(n, |i: int| 0 < i && t[i - 1].pts_ms < t[i].pts_ms, later);
        next_place_counts(n, later);
        assert(s[s.len() - 2] == t.last());
        assert(s[n as int] == s.last() && s[n - 1] == t.last());
    }
}

/// A rate lies between a fifth and a hundred and twenty frames a second; one
/// outside is moved to the nearer bound.
pub proof fn rates_lie_within_their_bounds(s: Single)
    requires
        !s.nan(),
    ensures
        is_rate(s) <==> single(0x3e4c_cccd).rank() <= s.rank() <= single(0x42f0_0000).rank(),
        is_rate(s) ==> rate_within_bounds(s) == s,
        s.rank() < single(0x3e4c_cccd).rank() ==> rate_within_bounds(s) == single(0x3e4c_cccd),
        s.rank() > single(0x42f0_0000).rank() ==> rate_within_bounds(s) == single(0x42f0_0000),
        is_rate(rate_within_bounds(s)),
{
    assert(single(0x3e4c_cccd).rank() < single(0x42f0_0000).rank());
}

} // verus!
