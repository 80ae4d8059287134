//! What a local audio front end heard, and how a model's claims about sound are
//! held to it.

use vstd::prelude::*;

use crate::digits::{decimal, push_decimal};
use crate::ieee::{single, Single};
use crate::json::Json;
use crate::overlay::{
    later, lesser, list_has, moment_overlay, overlay_of_moment, opt_overlay, MomentView, OverlayView,
    SemanticMoment, SemanticOverlay,
};
use crate::sort::{sorted, stable_sort, views, Ranked};
use crate::text::{
    clipped, is_blank, join, joined, le, opt_text, owned, owned_opt, same, text_le,
    text_order_is_total, text_order_is_transitive, texts, trim, trimmed, truncate_context,
};

verus! {

/// Something that the front end heard.
#[derive(Debug)]
pub struct AudioObservation {
    pub start_offset_ms: u64,
    pub end_offset_ms: u64,
    pub kind: String,
    pub label: String,
    pub confidence: Single,
    /// The confidence with three decimals, as a model is told it.
    pub confidence_text: String,
    pub model: String,
    pub transcript: Option<String>,
    pub language: Option<String>,
    pub emotion: Option<String>,
}

/// What an observation is.
pub ghost struct ObservationView {
    pub start_offset_ms: u64,
    pub end_offset_ms: u64,
    pub kind: Seq<char>,
    pub label: Seq<char>,
    pub confidence: Single,
    pub confidence_text: Seq<char>,
    pub model: Seq<char>,
    pub transcript: Option<Seq<char>>,
    pub language: Option<Seq<char>>,
    pub emotion: Option<Seq<char>>,
}

impl View for AudioObservation {
    type V = ObservationView;

    open spec fn view(&self) -> ObservationView {
        ObservationView {
            start_offset_ms: self.start_offset_ms,
            end_offset_ms: self.end_offset_ms,
            kind: self.kind@,
            label: self.label@,
            confidence: self.confidence,
            confidence_text: self.confidence_text@,
            model: self.model@,
            transcript: opt_text(self.transcript),
            language: opt_text(self.language),
            emotion: opt_text(self.emotion),
        }
    }
}

/// All that the front end heard in one window, and its own report of it.
#[derive(Debug)]
pub struct AudioAnalysis {
    pub observations: Vec<AudioObservation>,
    pub audio_duration_ms: u64,
    pub report: Json,
}

// ---------------------------------------------------------------- moments
/// The kind of moment that something heard is.
pub open spec fn heard_kind(o: ObservationView) -> Seq<char> {
    if o.kind == "speech"@ {
        "speech"@
    } else if o.label == "music"@ {
        "music"@
    } else if o.label == "silence"@ || o.label == "inside_small_room"@ || o.label
        == "outside_urban_or_manmade"@ || o.label == "outside_rural_or_natural"@ {
        "ambient"@
    } else if o.label == "engine"@ || o.label == "engine_starting"@ || o.label == "idling"@
        || o.label == "mechanisms"@ || o.label == "tools"@ || o.label == "vehicle"@ {
        "mechanical"@
    } else {
        "sound_effect"@
    }
}

/// The kind of moment that something heard is.
pub fn audio_moment_kind(observation: &AudioObservation) -> (r: &'static str)
    ensures
        r@ == heard_kind(observation@),
{
    if same(observation.kind.as_str(), "speech") {
        return "speech";
    }
    let label = observation.label.as_str();
    if same(label, "music") {
        "music"
    } else if same(label, "silence") || same(label, "inside_small_room") || same(
        label,
        "outside_urban_or_manmade",
    ) || same(label, "outside_rural_or_natural") {
        "ambient"
    } else if same(label, "engine") || same(label, "engine_starting") || same(label, "idling")
        || same(label, "mechanisms") || same(label, "tools") || same(label, "vehicle") {
        "mechanical"
    } else {
        "sound_effect"
    }
}

/// Zero and one, the bounds of a confidence.
pub open spec fn unit_single(s: Single) -> Single {
    s.clamped(single(0), single(0x3f80_0000))
}

/// A confidence kept between zero and one.
pub fn clamp_unit(s: Single) -> (r: Single)
    ensures
        r == unit_single(s),
{
    s.clamp(Single { bits: 0 }, Single { bits: 0x3f80_0000 })
}

/// The words that describe something heard: what was said, or its label.
pub open spec fn heard_description(o: ObservationView) -> Seq<char> {
    match o.transcript {
        Some(t) => if trimmed(t).len() == 0 {
            o.label
        } else {
            "Speaker: "@ + t
        },
        None => o.label,
    }
}

/// The moment that something heard makes in a window; `None` for mere voice
/// activity and for what has no extent inside the window.
pub open spec fn heard_moment(
    o: ObservationView,
    source_start_ms: u64,
    duration_ms: u64,
) -> Option<MomentView> {
    let start = lesser(o.start_offset_ms, duration_ms);
    let end = lesser(
        if o.end_offset_ms < start {
            start
        } else {
            o.end_offset_ms
        },
        duration_ms,
    );
    if o.kind == "voice_activity"@ || end <= start {
        None
    } else {
        Some(
            MomentView {
                start_offset_ms: start,
                end_offset_ms: end,
                start_pts_ms: later(source_start_ms, start),
                end_pts_ms: later(source_start_ms, end),
                modalities: seq!["audio"@],
                kind: heard_kind(o),
                description: heard_description(o),
                intent: o.transcript,
                audio_visual_relation: None,
                confidence: unit_single(o.confidence),
            },
        )
    }
}

/// The moments that all things heard make, in their order.
pub open spec fn heard_moments(
    s: Seq<ObservationView>,
    source_start_ms: u64,
    duration_ms: u64,
) -> Seq<MomentView>
    decreases s.len(),
{
    if s.len() == 0 {
        Seq::empty()
    } else {
        let head = heard_moments(s.drop_last(), source_start_ms, duration_ms);
        match heard_moment(s.last(), source_start_ms, duration_ms) {
            Some(m) => head.push(m),
            None => head,
        }
    }
}

/// The length of a window.
pub open spec fn span(source_start_ms: u64, source_end_ms: u64) -> u64 {
    if source_end_ms < source_start_ms {
        0
    } else {
        (source_end_ms - source_start_ms) as u64
    }
}

fn make_moment(o: &AudioObservation, source_start_ms: u64, duration_ms: u64) -> (r: Option<
    SemanticMoment,
>)
    ensures
        match r {
            Some(m) => heard_moment(o@, source_start_ms, duration_ms) == Some(m@),
            None => heard_moment(o@, source_start_ms, duration_ms) is None,
        },
{
    if same(o.kind.as_str(), "voice_activity") {
        return None;
    }
    let start: u64 = if o.start_offset_ms <= duration_ms {
        o.start_offset_ms
    } else {
        duration_ms
    };
    let raised: u64 = if o.end_offset_ms < start {
        start
    } else {
        o.end_offset_ms
    };
    let end: u64 = if raised <= duration_ms {
        raised
    } else {
        duration_ms
    };
    if end <= start {
        return None;
    }
    let description = match &o.transcript {
        Some(t) => if is_blank(t.as_str()) {
            o.label.clone()
        } else {
            let mut d = owned("Speaker: ");
            d.push_str(t.as_str());
            d
        },
        None => o.label.clone(),
    };
    let mut modalities: Vec<String> = Vec::new();
    modalities.push(owned("audio"));
    assert(texts(modalities@) =~= seq!["audio"@]);
    Some(
        SemanticMoment {
            start_offset_ms: start,
            end_offset_ms: end,
            start_pts_ms: source_start_ms.saturating_add(start),
            end_pts_ms: source_start_ms.saturating_add(end),
            modalities,
            kind: owned(audio_moment_kind(o)),
            description,
            intent: owned_opt(&o.transcript),
            audio_visual_relation: None,
            confidence: clamp_unit(o.confidence),
        },
    )
}

/// The moments that all things heard in a window make.
pub fn audio_moments(analysis: &AudioAnalysis, source_start_ms: u64, source_end_ms: u64) -> (r: Vec<
    SemanticMoment,
>)
    ensures
        views(r@) == heard_moments(
            views(analysis.observations@),
            source_start_ms,
            span(source_start_ms, source_end_ms),
        ),
{
    let duration_ms: u64 = source_end_ms.saturating_sub(source_start_ms);
    let ghost all = views(analysis.observations@);
    let mut out: Vec<SemanticMoment> = Vec::new();
    let mut i: usize = 0;
    assert(all.take(0) =~= Seq::empty());
    assert(views(out@) =~= Seq::empty());
    while i < analysis.observations.len()
        invariant
            i <= analysis.observations@.len(),
            all == views(analysis.observations@),
            views(out@) == heard_moments(all.take(i as int), source_start_ms, duration_ms),
        decreases analysis.observations@.len() - i,
    {
        assert(all.take(i + 1).drop_last() =~= all.take(i as int));
        match make_moment(&analysis.observations[i], source_start_ms, duration_ms) {
            Some(m) => {
                let ghost before = views(out@);
                let ghost mv = m@;
                out.push(m);
                assert(views(out@) =~= before.push(mv));
            },
            None => {},
        }
        i += 1;
    }
    assert(all.take(i as int) =~= all);
    out
}

// ---------------------------------------------------------------- grounding
/// Two stretches of time overlap or are no farther apart than `tolerance_ms`.
pub open spec fn overlap(
    left_start: u64,
    left_end: u64,
    right_start: u64,
    right_end: u64,
    tolerance_ms: u64,
) -> bool {
    left_start <= right_end + tolerance_ms && right_start <= left_end + tolerance_ms
}

/// Two stretches of time overlap or are no farther apart than `tolerance_ms`.
pub fn intervals_overlap(
    left_start: u64,
    left_end: u64,
    right_start: u64,
    right_end: u64,
    tolerance_ms: u64,
) -> (r: bool)
    ensures
        r == overlap(left_start, left_end, right_start, right_end, tolerance_ms),
{
    left_start <= right_end.saturating_add(tolerance_ms) && right_start <= left_end.saturating_add(
        tolerance_ms,
    )
}

/// Which of two stretches is named first makes no difference to their overlap.
pub proof fn overlap_is_symmetric(a: u64, b: u64, c: u64, d: u64, tolerance_ms: u64)
    ensures
        overlap(a, b, c, d, tolerance_ms) == overlap(c, d, a, b, tolerance_ms),
{
}

/// Something heard bears out a claim: it was heard around the same time, and is
/// speech with words where the claim is of speech, or a sound where it is not.
pub open spec fn supports(o: ObservationView, m: MomentView) -> bool {
    &&& o.kind != "voice_activity"@
    &&& overlap(m.start_offset_ms, m.end_offset_ms, o.start_offset_ms, o.end_offset_ms, 500)
    &&& if m.kind == "speech"@ {
        o.kind == "speech"@ && o.transcript is Some && trimmed(o.transcript->0).len() > 0
    } else {
        o.kind == "audio_event"@
    }
}

fn is_support(o: &AudioObservation, m: &SemanticMoment) -> (r: bool)
    ensures
        r == supports(o@, m@),
{
    if same(o.kind.as_str(), "voice_activity") || !intervals_overlap(
        m.start_offset_ms,
        m.end_offset_ms,
        o.start_offset_ms,
        o.end_offset_ms,
        500,
    ) {
        return false;
    }
    if same(m.kind.as_str(), "speech") {
        if !same(o.kind.as_str(), "speech") {
            return false;
        }
        match &o.transcript {
            Some(t) => !is_blank(t.as_str()),
            None => false,
        }
    } else {
        same(o.kind.as_str(), "audio_event")
    }
}

/// What was said in the observations that bear out a claim of speech.
pub open spec fn supporting_words(s: Seq<ObservationView>, m: MomentView) -> Seq<Seq<char>>
    decreases s.len(),
{
    if s.len() == 0 {
        Seq::empty()
    } else {
        let head = supporting_words(s.drop_last(), m);
        let o = s.last();
        if supports(o, m) && o.transcript is Some && trimmed(o.transcript->0).len() > 0 {
            head.push(trimmed(o.transcript->0))
        } else {
            head
        }
    }
}

/// The labels of the observations that bear out a claim.
pub open spec fn supporting_labels(s: Seq<ObservationView>, m: MomentView) -> Seq<Seq<char>>
    decreases s.len(),
{
    if s.len() == 0 {
        Seq::empty()
    } else {
        let head = supporting_labels(s.drop_last(), m);
        if supports(s.last(), m) {
            head.push(s.last().label)
        } else {
            head
        }
    }
}

/// A list without one entry.
pub open spec fn without(list: Seq<Seq<char>>, entry: Seq<char>) -> Seq<Seq<char>>
    decreases list.len(),
{
    if list.len() == 0 {
        Seq::empty()
    } else if list.last() == entry {
        without(list.drop_last(), entry)
    } else {
        without(list.drop_last(), entry).push(list.last())
    }
}

/// A model's claim, held to what was heard. A claim that rests on no sound
/// stays. One that does, with nothing heard to bear it out, loses the sound, or
/// goes where there is nothing else in it. The words of speech are those that
/// were heard, and a sound alone is told by the labels of what was heard.
pub open spec fn grounded(m: MomentView, heard: Seq<ObservationView>) -> Option<MomentView> {
    let labels = supporting_labels(heard, m);
    if !m.modalities.contains("audio"@) {
        Some(m)
    } else if labels.len() == 0 {
        if m.modalities.len() == 1 {
            None
        } else {
            Some(
                MomentView {
                    modalities: without(m.modalities, "audio"@),
                    audio_visual_relation: None,
                    ..m
                },
            )
        }
    } else if m.kind == "speech"@ {
        let words = clipped(joined(supporting_words(heard, m), " "@), 1000);
        Some(
            MomentView {
                description: "Speaker: "@ + words,
                intent: Some(words),
                audio_visual_relation: if m.modalities.len() == 1 {
                    None
                } else {
                    m.audio_visual_relation
                },
                ..m
            },
        )
    } else if m.modalities.len() == 1 {
        Some(
            MomentView {
                description: "Local audio event: "@ + joined(labels, ", "@),
                intent: None,
                audio_visual_relation: None,
                ..m
            },
        )
    } else {
        Some(m)
    }
}

/// All claims held to what was heard, in their order.
pub open spec fn all_grounded(s: Seq<MomentView>, heard: Seq<ObservationView>) -> Seq<MomentView>
    decreases s.len(),
{
    if s.len() == 0 {
        Seq::empty()
    } else {
        match grounded(s[0], heard) {
            Some(m) => seq![m] + all_grounded(s.drop_first(), heard),
            None => all_grounded(s.drop_first(), heard),
        }
    }
}

fn collect_support(heard: &Vec<AudioObservation>, m: &SemanticMoment) -> (r: (
    Vec<String>,
    Vec<String>,
))
    ensures
        texts(r.0@) == supporting_labels(views(heard@), m@),
        texts(r.1@) == supporting_words(views(heard@), m@),
{
    let ghost all = views(heard@);
    let mut labels: Vec<String> = Vec::new();
    let mut words: Vec<String> = Vec::new();
    let mut i: usize = 0;
    assert(all.take(0) =~= Seq::empty());
    assert(texts(labels@) =~= Seq::empty());
    assert(texts(words@) =~= Seq::empty());
    while i < heard.len()
        invariant
            i <= heard@.len(),
            all == views(heard@),
            texts(labels@) == supporting_labels(all.take(i as int), m@),
            texts(words@) == supporting_words(all.take(i as int), m@),
        decreases heard@.len() - i,
    {
        assert(all.take(i + 1).drop_last() =~= all.take(i as int));
        let o = &heard[i];
        if is_support(o, m) {
            let ghost lb = texts(labels@);
            labels.push(o.label.clone());
            assert(texts(labels@) =~= lb.push(o.label@));
            match &o.transcript {
                Some(t) => {
                    let t2 = trim(t.as_str());
                    if !t2.as_str().is_empty() {
                        let ghost wb = texts(words@);
                        let ghost tv = t2@;
                        words.push(t2);
                        assert(texts(words@) =~= wb.push(tv));
                    }
                },
                None => {},
            }
        }
        i += 1;
    }
    assert(all.take(i as int) =~= all);
    (labels, words)
}

fn remove_entry(list: &Vec<String>, entry: &str) -> (r: Vec<String>)
    ensures
        texts(r@) == without(texts(list@), entry@),
{
    let ghost all = texts(list@);
    let mut out: Vec<String> = Vec::new();
    let mut i: usize = 0;
    assert(all.take(0) =~= Seq::empty());
    assert(texts(out@) =~= Seq::empty());
    while i < list.len()
        invariant
            i <= list@.len(),
            all == texts(list@),
            texts(out@) == without(all.take(i as int), entry@),
        decreases list@.len() - i,
    {
        assert(all.take(i + 1).drop_last() =~= all.take(i as int));
        if !same(list[i].as_str(), entry) {
            let ghost before = texts(out@);
            out.push(list[i].clone());
            assert(texts(out@) =~= before.push(list@[i as int]@));
        }
        i += 1;
    }
    assert(all.take(i as int) =~= all);
    out
}

fn ground_one(m: SemanticMoment, heard: &Vec<AudioObservation>) -> (r: Option<SemanticMoment>)
    ensures
        match r {
            Some(g) => grounded(m@, views(heard@)) == Some(g@),
            None => grounded(m@, views(heard@)) is None,
        },
{
    let mut moment = m;
    if !list_has(&moment.modalities, "audio") {
        return Some(moment);
    }
    let (labels, words) = collect_support(heard, &moment);
    if labels.is_empty() {
        if moment.modalities.len() == 1 {
            return None;
        }
        moment.modalities = remove_entry(&moment.modalities, "audio");
        moment.audio_visual_relation = None;
        return Some(moment);
    }
    if same(moment.kind.as_str(), "speech") {
        let said = truncate_context(join(&words, " ").as_str(), 1000);
        let mut description = owned("Speaker: ");
        description.push_str(said.as_str());
        moment.description = description;
        moment.intent = Some(said);
        if moment.modalities.len() == 1 {
            moment.audio_visual_relation = None;
        }
    } else if moment.modalities.len() == 1 {
        let mut description = owned("Local audio event: ");
        description.push_str(join(&labels, ", ").as_str());
        moment.description = description;
        moment.intent = None;
        moment.audio_visual_relation = None;
    }
    Some(moment)
}

/// A model's claims held to what was heard; as they are where nothing listened.
pub fn ground_provider_moments(
    moments: Vec<SemanticMoment>,
    analysis: Option<&AudioAnalysis>,
) -> (r: Vec<SemanticMoment>)
    ensures
        match analysis {
            Some(a) => views(r@) == all_grounded(views(moments@), views(a.observations@)),
            None => views(r@) == views(moments@),
        },
{
    let analysis = match analysis {
        Some(a) => a,
        None => {
            return moments;
        },
    };
    let ghost all = views(moments@);
    let ghost heard = views(analysis.observations@);
    let mut rest = moments;
    let mut out: Vec<SemanticMoment> = Vec::new();
    assert(views(out@) + all_grounded(views(rest@), heard) =~= all_grounded(all, heard));
    while rest.len() > 0
        invariant
            heard == views(analysis.observations@),
            views(out@) + all_grounded(views(rest@), heard) == all_grounded(all, heard),
        decreases rest@.len(),
    {
        let ghost rv = views(rest@);
        let m = rest.remove(0);
        assert(views(rest@) =~= rv.drop_first());
        assert(rv[0] == m@);
        match ground_one(m, &analysis.observations) {
            Some(g) => {
                let ghost before = views(out@);
                let ghost gv = g@;
                out.push(g);
                assert(views(out@) =~= before.push(gv));
                assert(before + (seq![gv] + all_grounded(rv.drop_first(), heard)) =~= before.push(gv)
                    + all_grounded(rv.drop_first(), heard));
            },
            None => {},
        }
    }
    assert(all_grounded(views(rest@), heard) =~= Seq::empty());
    assert(views(out@) =~= all_grounded(all, heard));
    out
}

/// A claim that is kept although it rests on sound alone was borne out by
/// something heard.
pub proof fn kept_sound_was_heard(m: MomentView, heard: Seq<ObservationView>)
    requires
        m.modalities == seq!["audio"@],
        grounded(m, heard) is Some,
    ensures
        exists|i: int| 0 <= i < heard.len() && supports(#[trigger] heard[i], m),
{
    assert(m.modalities[0] == "audio"@);
    lemma_label_from_support(heard, m);
}

proof fn lemma_label_from_support(heard: Seq<ObservationView>, m: MomentView)
    ensures
        supporting_labels(heard, m).len() > 0 ==> exists|i: int|
            0 <= i < heard.len() && supports(#[trigger] heard[i], m),
    decreases heard.len(),
{
    if heard.len() > 0 {
        lemma_label_from_support(heard.drop_last(), m);
        if supports(heard.last(), m) {
            assert(supports(heard[heard.len() - 1], m));
        } else if supporting_labels(heard, m).len() > 0 {
            let i = choose|i: int|
                0 <= i < heard.drop_last().len() && supports(#[trigger] heard.drop_last()[i], m);
            assert(heard[i] == heard.drop_last()[i]);
        }
    }
}

/// The words of speech that is kept are the words that were heard, never those
/// of the model.
pub proof fn kept_speech_has_heard_words(m: MomentView, n: MomentView, heard: Seq<ObservationView>)
    requires
        m.kind == "speech"@,
        m.modalities.contains("audio"@),
        grounded(m, heard) == Some(n),
        n.modalities.contains("audio"@),
    ensures
        n.description == "Speaker: "@ + clipped(joined(supporting_words(heard, m), " "@), 1000),
        n.intent == Some(clipped(joined(supporting_words(heard, m), " "@), 1000)),
{
    lemma_without(m.modalities, "audio"@);
}

proof fn lemma_without(list: Seq<Seq<char>>, entry: Seq<char>)
    ensures
        !without(list, entry).contains(entry),
    decreases list.len(),
{
    if list.len() > 0 {
        lemma_without(list.drop_last(), entry);
        let head = without(list.drop_last(), entry);
        if list.last() != entry && head.push(list.last()).contains(entry) {
            let k = choose|k: int|
                0 <= k < head.push(list.last()).len() && head.push(list.last())[k] == entry;
            assert(head[k] == entry);
        }
    }
}

// ---------------------------------------------------------------- duplicates
/// The order of beginnings, then of ends, then of kinds.
pub struct ByTimeAndKind;

impl Ranked<ByTimeAndKind> for SemanticMoment {
    open spec fn ranks_before(a: MomentView, b: MomentView) -> bool {
        a.start_offset_ms < b.start_offset_ms || (a.start_offset_ms == b.start_offset_ms && (
        a.end_offset_ms < b.end_offset_ms || (a.end_offset_ms == b.end_offset_ms && text_le(
            a.kind,
            b.kind,
        ))))
    }

    fn may_precede(&self, other: &Self) -> (r: bool) {
        self.start_offset_ms < other.start_offset_ms || (self.start_offset_ms
            == other.start_offset_ms && (self.end_offset_ms < other.end_offset_ms || (
        self.end_offset_ms == other.end_offset_ms && le(self.kind.as_str(), other.kind.as_str()))))
    }

    proof fn rank_is_total(a: MomentView, b: MomentView) {
        text_order_is_total(a.kind, b.kind);
    }

    proof fn rank_is_transitive(a: MomentView, b: MomentView, c: MomentView) {
        if text_le(a.kind, b.kind) && text_le(b.kind, c.kind) {
            text_order_is_transitive(a.kind, b.kind, c.kind);
        }
    }
}

/// Two moments tell of the same thing.
pub open spec fn same_event(p: MomentView, m: MomentView) -> bool {
    p.kind == m.kind && overlap(
        p.start_offset_ms,
        p.end_offset_ms,
        m.start_offset_ms,
        m.end_offset_ms,
        250,
    ) && (p.description == m.description || m.kind == "speech"@)
}

/// Where the first moment of a list stands that tells of the same thing, from
/// `i` on; the length of the list where there is none.
pub open spec fn first_same(list: Seq<MomentView>, m: MomentView, i: int) -> int
    decreases list.len() - i,
{
    if i >= list.len() || same_event(list[i], m) {
        i
    } else {
        first_same(list, m, i + 1)
    }
}

/// A list of distinct moments with one more: a moment that tells of the same
/// thing as one of them takes its place where it has more modalities.
pub open spec fn merged_into(list: Seq<MomentView>, m: MomentView) -> Seq<MomentView> {
    let i = first_same(list, m, 0);
    if i >= list.len() {
        list.push(m)
    } else if m.modalities.len() > list[i].modalities.len() {
        list.update(i, m)
    } else {
        list
    }
}

/// Moments, merged one after the other.
pub open spec fn merged(s: Seq<MomentView>) -> Seq<MomentView>
    decreases s.len(),
{
    if s.len() == 0 {
        Seq::empty()
    } else {
        merged_into(merged(s.drop_last()), s.last())
    }
}

fn find_same(list: &Vec<SemanticMoment>, m: &SemanticMoment) -> (r: usize)
    ensures
        r == first_same(views(list@), m@, 0),
        r <= list@.len(),
{
    let mut i: usize = 0;
    while i < list.len()
        invariant
            i <= list@.len(),
            first_same(views(list@), m@, 0) == first_same(views(list@), m@, i as int),
        decreases list@.len() - i,
    {
        let p = &list[i];
        assert(views(list@)[i as int] == p@);
        if same(p.kind.as_str(), m.kind.as_str()) && intervals_overlap(
            p.start_offset_ms,
            p.end_offset_ms,
            m.start_offset_ms,
            m.end_offset_ms,
            250,
        ) && (same(p.description.as_str(), m.description.as_str()) || same(
            m.kind.as_str(),
            "speech",
        )) {
            return i;
        }
        i += 1;
    }
    i
}

/// Puts moments in order and merges those that tell of the same thing.
pub fn deduplicate_moments(moments: &mut Vec<SemanticMoment>)
    ensures
        views(final(moments)@) == merged(
            sorted::<SemanticMoment, ByTimeAndKind>(views(old(moments)@)),
        ),
{
    stable_sort::<SemanticMoment, ByTimeAndKind>(moments);
    let ghost all = views(moments@);
    let n: usize = moments.len();
    let mut out: Vec<SemanticMoment> = Vec::new();
    let mut done: usize = 0;
    assert(all.take(0) =~= Seq::empty());
    assert(views(out@) =~= Seq::empty());
    assert(all.skip(0) =~= all);
    while done < n
        invariant
            done <= n,
            n == all.len(),
            moments@.len() == n - done,
            views(moments@) == all.skip(done as int),
            views(out@) == merged(all.take(done as int)),
        decreases n - done,
    {
        let ghost rest = views(moments@);
        let m = moments.remove(0);
        assert(views(moments@) =~= rest.drop_first());
        assert(rest.drop_first() =~= all.skip(done + 1));
        assert(rest[0] == m@);
        assert(m@ == all[done as int]);
        assert(all.take(done + 1).drop_last() =~= all.take(done as int));
        let ghost before = views(out@);
        let ghost mv = m@;
        let i: usize = find_same(&out, &m);
        if i >= out.len() {
            out.push(m);
            assert(views(out@) =~= before.push(mv));
        } else {
            assert(before[i as int] == out@[i as int]@);
            assert(texts(out@[i as int].modalities@).len() == out@[i as int].modalities@.len());
            assert(texts(m.modalities@).len() == m.modalities@.len());
            if m.modalities.len() > out[i].modalities.len() {
                out.set(i, m);
                assert(views(out@) =~= before.update(i as int, mv));
            }
        }
        done += 1;
    }
    assert(all.take(n as int) =~= all);
    *moments = out;
}

proof fn lemma_first_same(list: Seq<MomentView>, m: MomentView, i: int)
    requires
        0 <= i <= list.len(),
    ensures
        i <= first_same(list, m, i) <= list.len(),
    decreases list.len() - i,
{
    if i < list.len() && !same_event(list[i], m) {
        lemma_first_same(list, m, i + 1);
    }
}

/// Merging makes no list longer and adds no moment of its own.
pub proof fn merging_adds_nothing(s: Seq<MomentView>)
    ensures
        merged(s).len() <= s.len(),
        forall|i: int| 0 <= i < merged(s).len() ==> s.contains(#[trigger] merged(s)[i]),
    decreases s.len(),
{
    if s.len() > 0 {
        let t = s.drop_last();
        merging_adds_nothing(t);
        lemma_first_same(merged(t), s.last(), 0);
        assert forall|i: int| 0 <= i < merged(s).len() implies s.contains(#[trigger] merged(s)[i]) by {
            assert(s[s.len() - 1] == s.last());
            if merged(s)[i] != s.last() {
                assert(merged(t)[i] == merged(s)[i]);
                assert(t.contains(merged(t)[i]));
                let k = choose|k: int| 0 <= k < t.len() && t[k] == merged(t)[i];
                assert(s[k] == merged(s)[i]);
            }
        }
    }
}

// ---------------------------------------------------------------- overlay
/// The moment of highest confidence, the last of those where there are
/// several.
pub open spec fn best_moment(s: Seq<MomentView>) -> Option<MomentView>
    decreases s.len(),
{
    if s.len() == 0 {
        None
    } else {
        match best_moment(s.drop_last()) {
            Some(b) => if b.confidence.total_rank() <= s.last().confidence.total_rank() {
                Some(s.last())
            } else {
                Some(b)
            },
            None => Some(s.last()),
        }
    }
}

fn find_best(moments: &Vec<SemanticMoment>) -> (r: Option<usize>)
    ensures
        match r {
            Some(i) => i < moments@.len() && best_moment(views(moments@)) == Some(
                moments@[i as int]@,
            ),
            None => best_moment(views(moments@)) is None,
        },
{
    let ghost all = views(moments@);
    let mut best: Option<usize> = None;
    let mut i: usize = 0;
    assert(all.take(0) =~= Seq::empty());
    while i < moments.len()
        invariant
            i <= moments@.len(),
            all == views(moments@),
            match best {
                Some(b) => b < i && best_moment(all.take(i as int)) == Some(moments@[b as int]@),
                None => best_moment(all.take(i as int)) is None,
            },
        decreases moments@.len() - i,
    {
        assert(all.take(i + 1).drop_last() =~= all.take(i as int));
        assert(all.take(i + 1).last() == moments@[i as int]@);
        match best {
            Some(b) => {
                if moments[b].confidence.total_at_most(moments[i].confidence) {
                    best = Some(i);
                }
            },
            None => {
                best = Some(i);
            },
        }
        i += 1;
    }
    assert(all.take(i as int) =~= all);
    best
}

/// The overlay that the most certain moment gives.
pub open spec fn best_overlay(s: Seq<MomentView>) -> Option<OverlayView> {
    match best_moment(s) {
        Some(m) => Some(overlay_of_moment(m)),
        None => None,
    }
}

/// The overlay that the most certain moment gives.
pub fn overlay_from_moments(moments: &Vec<SemanticMoment>) -> (r: Option<SemanticOverlay>)
    ensures
        opt_overlay(r) == best_overlay(views(moments@)),
{
    match find_best(moments) {
        Some(i) => Some(moment_overlay(&moments[i])),
        None => None,
    }
}

/// No moment is more certain than the one that the overlay shows.
pub proof fn overlay_shows_the_most_certain_moment(s: Seq<MomentView>)
    ensures
        s.len() > 0 ==> best_moment(s) is Some && s.contains(best_moment(s)->0),
        forall|i: int|
            0 <= i < s.len() ==> (#[trigger] s[i]).confidence.total_rank() <= best_moment(
                s,
            )->0.confidence.total_rank(),
    decreases s.len(),
{
    if s.len() > 0 {
        let t = s.drop_last();
        overlay_shows_the_most_certain_moment(t);
        assert(s[s.len() - 1] == s.last());
        if t.len() > 0 {
            let b = best_moment(t)->0;
            let k = choose|k: int| 0 <= k < t.len() && t[k] == b;
            assert(s[k] == b);
            assert forall|i: int| 0 <= i < s.len() implies (
            #[trigger] s[i]).confidence.total_rank() <= best_moment(
                s,
            )->0.confidence.total_rank() by {
                if i < t.len() {
                    assert(s[i] == t[i]);
                }
            }
        }
    }
}

/// The overlay for a window in which nothing was heard.
pub open spec fn silent_overlay() -> OverlayView {
    OverlayView {
        event_type: "context_observation"@,
        object_label: "audio"@,
        summary: "No local audio event crossed the threshold"@,
        description: "No local audio event crossed the configured threshold"@,
        confidence: Single { bits: 0 },
    }
}

/// The overlay of a chunk that only the front end judged.
pub open spec fn local_overlay(s: Seq<MomentView>) -> OverlayView {
    match best_overlay(s) {
        Some(o) => o,
        None => silent_overlay(),
    }
}

/// The overlay of a chunk that only the front end judged.
pub fn local_audio_overlay(moments: &Vec<SemanticMoment>) -> (r: SemanticOverlay)
    ensures
        r@ == local_overlay(views(moments@)),
{
    match overlay_from_moments(moments) {
        Some(o) => o,
        None => SemanticOverlay {
            event_type: owned("context_observation"),
            object_label: owned("audio"),
            summary: owned("No local audio event crossed the threshold"),
            description: owned("No local audio event crossed the configured threshold"),
            confidence: Single { bits: 0 },
        },
    }
}

// ---------------------------------------------------------------- prompt
/// One line of the account that a model is given of what was heard.
pub open spec fn heard_line(index: nat, o: ObservationView) -> Seq<char> {
    let head = "\n- audio:"@ + decimal(index) + " "@ + decimal(o.start_offset_ms as nat) + ".."@
        + decimal(o.end_offset_ms as nat) + "ms kind="@ + o.kind + " label="@ + o.label
        + " confidence="@ + o.confidence_text + " model="@ + o.model;
    let with_words = match o.transcript {
        Some(t) => head + " transcript="@ + clipped(t, 240),
        None => head,
    };
    match o.emotion {
        Some(e) => with_words + " emotion="@ + e,
        None => with_words,
    }
}

/// The lines for all that was heard.
pub open spec fn heard_lines(s: Seq<ObservationView>) -> Seq<char>
    decreases s.len(),
{
    if s.len() == 0 {
        Seq::empty()
    } else {
        heard_lines(s.drop_last()) + heard_line((s.len() - 1) as nat, s.last())
    }
}

/// The account that a model is given of what was heard, of at most 32 things.
pub open spec fn heard_account(s: Seq<ObservationView>) -> Seq<char> {
    if s.len() == 0 {
        "\nLocal audio front-end found no event above its calibrated threshold."@
    } else {
        "\nLocal audio observations follow. Transcript entries constrain spoken words. Sound labels remain classifier hypotheses:"@
            + heard_lines(
            if s.len() <= 32 {
                s
            } else {
                s.take(32)
            },
        )
    }
}

fn push_heard_line(out: &mut String, index: usize, o: &AudioObservation)
    ensures
        final(out)@ == old(out)@ + heard_line(index as nat, o@),
{
    let ghost base = out@;
    out.push_str("\n- audio:");
    push_decimal(out, index as u64);
    out.push_str(" ");
    push_decimal(out, o.start_offset_ms);
    out.push_str("..");
    push_decimal(out, o.end_offset_ms);
    out.push_str("ms kind=");
    out.push_str(o.kind.as_str());
    out.push_str(" label=");
    out.push_str(o.label.as_str());
    out.push_str(" confidence=");
    out.push_str(o.confidence_text.as_str());
    out.push_str(" model=");
    out.push_str(o.model.as_str());
    match &o.transcript {
        Some(t) => {
            out.push_str(" transcript=");
            out.push_str(truncate_context(t.as_str(), 240).as_str());
        },
        None => {},
    }
    match &o.emotion {
        Some(e) => {
            out.push_str(" emotion=");
            out.push_str(e.as_str());
        },
        None => {},
    }
    assert(out@ =~= base + heard_line(index as nat, o@));
}

/// The account that a model is given of what was heard.
pub fn local_audio_prompt_context(analysis: &AudioAnalysis) -> (r: String)
    ensures
        r@ == heard_account(views(analysis.observations@)),
{
    let heard = &analysis.observations;
    if heard.is_empty() {
        return owned("\nLocal audio front-end found no event above its calibrated threshold.");
    }
    let mut out = owned(
        "\nLocal audio observations follow. Transcript entries constrain spoken words. Sound labels remain classifier hypotheses:",
    );
    let ghost head = out@;
    let ghost all = views(heard@);
    let n: usize = if heard.len() <= 32 {
        heard.len()
    } else {
        32
    };
    let mut i: usize = 0;
    assert(all.take(0) =~= Seq::empty());
    assert(head + heard_lines(all.take(0)) =~= head);
    while i < n
        invariant
            i <= n <= heard@.len(),
            all == views(heard@),
            out@ == head + heard_lines(all.take(i as int)),
        decreases n - i,
    {
        let ghost before = out@;
        push_heard_line(&mut out, i, &heard[i]);
        i += 1;
        assert(all.take(i as int).drop_last() =~= all.take(i - 1));
        assert(out@ =~= head + heard_lines(all.take(i as int)));
    }
    assert(all.take(all.len() as int) =~= all);
    out
}

/// A sound makes a moment exactly if it is more than mere activity of a voice
/// and lasts within the window; the moment keeps to the window and stands at its
/// time in the source.
pub proof fn sounds_make_their_moments(o: ObservationView, source_start_ms: u64, duration_ms: u64)
    ensures
        ({
            let made = heard_moment(o, source_start_ms, duration_ms);
            &&& made is Some <==> o.kind != "voice_activity"@ && o.start_offset_ms < duration_ms
                && o.start_offset_ms < o.end_offset_ms
            &&& made matches Some(m) ==> {
                &&& m.start_offset_ms == o.start_offset_ms
                &&& m.end_offset_ms <= duration_ms
                &&& m.end_offset_ms == o.end_offset_ms || o.end_offset_ms > duration_ms
                    && m.end_offset_ms == duration_ms
                &&& source_start_ms + duration_ms <= u64::MAX ==> m.start_pts_ms == source_start_ms
                    + m.start_offset_ms && m.end_pts_ms == source_start_ms + m.end_offset_ms
                &&& m.modalities.len() == 1 && m.modalities[0] == "audio"@
                &&& m.intent == o.transcript
                &&& m.audio_visual_relation is None
                &&& o.kind == "speech"@ ==> m.kind == "speech"@
                &&& o.transcript is None ==> m.description == o.label
                &&& o.transcript is Some && trimmed(o.transcript->0).len() > 0 ==> m.description
                    == "Speaker: "@ + o.transcript->0
            }
        }),
{
}

/// Each sound adds its moment, and nothing else does.
pub proof fn each_sound_adds_its_moment(
    s: Seq<ObservationView>,
    o: ObservationView,
    source_start_ms: u64,
    duration_ms: u64,
)
    ensures
        ({
            let before = heard_moments(s, source_start_ms, duration_ms);
            let after = heard_moments(s.push(o), source_start_ms, duration_ms);
            let lasts = o.kind != "voice_activity"@ && o.start_offset_ms < duration_ms
                && o.start_offset_ms < o.end_offset_ms;
            &&& lasts ==> after.len() == before.len() + 1 && after.drop_last() == before
                && after.last().start_offset_ms == o.start_offset_ms
            &&& !lasts ==> after == before
        }),
{
    assert(s.push(o).drop_last() =~= s);
    let before = heard_moments(s, source_start_ms, duration_ms);
    if heard_moment(o, source_start_ms, duration_ms) is Some {
        assert(before.push(heard_moment(o, source_start_ms, duration_ms)->0).drop_last() =~= before);
    }
}

/// A sound bears out a claim exactly if it is no further than half a second from
/// it and is of its sort: words for speech, an event for anything else.
pub proof fn claims_are_borne_out_nearby(o: ObservationView, m: MomentView)
    ensures
        supports(o, m) <==> {
            &&& m.start_offset_ms <= o.end_offset_ms + 500
            &&& o.start_offset_ms <= m.end_offset_ms + 500
            &&& m.kind == "speech"@ ==> o.kind == "speech"@ && o.transcript is Some && trimmed(
                o.transcript->0,
            ).len() > 0
            &&& m.kind != "speech"@ ==> o.kind == "audio_event"@
        },
{
    reveal_strlit("voice_activity");
    reveal_strlit("speech");
    reveal_strlit("audio_event");
    assert("voice_activity"@.len() == 14);
    assert("speech"@.len() == 6);
    assert("audio_event"@.len() == 11);
}

/// A claim that names no sound stays as it is; one that names only sound that
/// nobody heard goes; one that also names pictures loses the sound alone.
pub proof fn unheard_sound_is_struck(m: MomentView, heard: Seq<ObservationView>)
    ensures
        ({
            let names_sound = m.modalities.contains("audio"@);
            let borne_out = exists|i: int| 0 <= i < heard.len() && supports(#[trigger] heard[i], m);
            let kept = grounded(m, heard);
            &&& !names_sound ==> kept == Some(m)
            &&& kept is None <==> names_sound && !borne_out && m.modalities.len() == 1
            &&& names_sound && !borne_out && m.modalities.len() != 1 ==> kept is Some
                && !kept->0.modalities.contains("audio"@) && kept->0.description == m.description
                && kept->0.audio_visual_relation is None
            &&& kept is Some ==> kept->0.start_offset_ms == m.start_offset_ms
                && kept->0.end_offset_ms == m.end_offset_ms && kept->0.kind == m.kind
                && kept->0.confidence == m.confidence
            &&& names_sound && borne_out ==> kept is Some && kept->0.modalities == m.modalities
        }),
{
    lemma_label_from_support(heard, m);
    lemma_support_gives_label(heard, m);
    lemma_without(m.modalities, "audio"@);
}

proof fn lemma_support_gives_label(heard: Seq<ObservationView>, m: MomentView)
    ensures
        (exists|i: int| 0 <= i < heard.len() && supports(#[trigger] heard[i], m))
            ==> supporting_labels(heard, m).len() > 0,
    decreases heard.len(),
{
    if heard.len() > 0 {
        let rest = heard.drop_last();
        lemma_support_gives_label(rest, m);
        if exists|i: int| 0 <= i < heard.len() && supports(#[trigger] heard[i], m) {
            let i = choose|i: int| 0 <= i < heard.len() && supports(#[trigger] heard[i], m);
            if i < rest.len() {
                assert(supports(rest[i], m));
            }
        }
    }
}

/// Each claim is judged by itself, and those that stay keep their order.
pub proof fn each_claim_is_judged(m: MomentView, s: Seq<MomentView>, heard: Seq<ObservationView>)
    ensures
        ({
            let rest = all_grounded(s, heard);
            let all = all_grounded(seq![m] + s, heard);
            &&& grounded(m, heard) is None ==> all == rest
            &&& grounded(m, heard) matches Some(kept) ==> all.len() == rest.len() + 1 && all[0]
                == kept && all.drop_first() == rest
        }),
{
    let whole = seq![m] + s;
    assert(whole.drop_first() =~= s);
    assert(whole[0] == m);
    let rest = all_grounded(s, heard);
    if let Some(kept) = grounded(m, heard) {
        assert((seq![kept] + rest).drop_first() =~= rest);
    }
}

/// Two moments tell of one event exactly if they are of one kind, within a
/// quarter of a second of each other, and both of speech or told in the same
/// words. Of such, the first stays, or the one that names more of the senses
/// takes its place; any other moment is kept beside the rest.
pub proof fn one_event_is_told_once(s: Seq<MomentView>, m: MomentView)
    ensures
        ({
            let before = merged(s);
            let after = merged(s.push(m));
            let same = |p: MomentView|
                p.kind == m.kind && p.start_offset_ms <= m.end_offset_ms + 250 && m.start_offset_ms
                    <= p.end_offset_ms + 250 && (m.kind == "speech"@ || p.description
                    == m.description);
            &&& (forall|k: int| 0 <= k < before.len() ==> !same(#[trigger] before[k])) ==> after
                == before.push(m)
            &&& (exists|k: int| 0 <= k < before.len() && same(#[trigger] before[k])) ==> {
                &&& after.len() == before.len()
                &&& after == before || exists|k: int|
                    0 <= k < before.len() && same(before[k]) && m.modalities.len()
                        > before[k].modalities.len() && after == #[trigger] before.update(k, m)
            }
        }),
{
    let before = merged(s);
    assert(s.push(m).drop_last() =~= s);
    lemma_first_same_is_first(before, m, 0);
}

proof fn lemma_first_same_is_first(list: Seq<MomentView>, m: MomentView, i: int)
    requires
        0 <= i <= list.len(),
    ensures
        i <= first_same(list, m, i) <= list.len(),
        first_same(list, m, i) < list.len() ==> same_event(list[first_same(list, m, i)], m),
        forall|k: int| i <= k < first_same(list, m, i) ==> !same_event(#[trigger] list[k], m),
    decreases list.len() - i,
{
    if i < list.len() && !same_event(list[i], m) {
        lemma_first_same_is_first(list, m, i + 1);
    }
}

/// What was heard is of the kind that its label belongs to; speech is speech
/// whatever its label.
pub proof fn labels_belong_to_kinds(o: ObservationView)
    ensures
        o.kind == "speech"@ ==> heard_kind(o) == "speech"@,
        o.kind != "speech"@ && o.label == "music"@ ==> heard_kind(o) == "music"@,
        o.kind != "speech"@ && o.label == "silence"@ ==> heard_kind(o) == "ambient"@,
        o.kind != "speech"@ && o.label == "inside_small_room"@ ==> heard_kind(o) == "ambient"@,
        o.kind != "speech"@ && o.label == "outside_urban_or_manmade"@ ==> heard_kind(o)
            == "ambient"@,
        o.kind != "speech"@ && o.label == "outside_rural_or_natural"@ ==> heard_kind(o)
            == "ambient"@,
        o.kind != "speech"@ && o.label == "engine"@ ==> heard_kind(o) == "mechanical"@,
        o.kind != "speech"@ && o.label == "engine_starting"@ ==> heard_kind(o) == "mechanical"@,
        o.kind != "speech"@ && o.label == "idling"@ ==> heard_kind(o) == "mechanical"@,
        o.kind != "speech"@ && o.label == "mechanisms"@ ==> heard_kind(o) == "mechanical"@,
        o.kind != "speech"@ && o.label == "tools"@ ==> heard_kind(o) == "mechanical"@,
        o.kind != "speech"@ && o.label == "vehicle"@ ==> heard_kind(o) == "mechanical"@,
        o.kind != "speech"@ && o.label.len() > 24 ==> heard_kind(o) == "sound_effect"@,
        heard_kind(o) == "sound_effect"@ ==> o.kind != "speech"@,
{
    reveal_strlit("speech");
    reveal_strlit("music");
    reveal_strlit("silence");
    reveal_strlit("inside_small_room");
    reveal_strlit("outside_urban_or_manmade");
    reveal_strlit("outside_rural_or_natural");
    reveal_strlit("engine");
    reveal_strlit("engine_starting");
    reveal_strlit("idling");
    reveal_strlit("mechanisms");
    reveal_strlit("tools");
    reveal_strlit("vehicle");
    reveal_strlit("sound_effect");
    reveal_strlit("ambient");
    reveal_strlit("mechanical");
    assert("speech"@.len() == 6);
    assert("music"@.len() == 5);
    assert("silence"@.len() == 7);
    assert("inside_small_room"@.len() == 17);
    assert("outside_urban_or_manmade"@.len() == 24);
    assert("outside_rural_or_natural"@.len() == 24);
    assert("engine"@.len() == 6);
    assert("engine_starting"@.len() == 15);
    assert("idling"@.len() == 6);
    assert("mechanisms"@.len() == 10);
    assert("tools"@.len() == 5);
    assert("vehicle"@.len() == 7);
    assert("sound_effect"@.len() == 12);
    assert("ambient"@.len() == 7);
    assert("mechanical"@.len() == 10);
    assert("speech"@[0] == 's' && "engine"@[0] == 'e');
    assert("speech"@[0] == 's' && "idling"@[0] == 'i');
    assert("engine"@[0] == 'e' && "idling"@[0] == 'i');
    assert("music"@[0] == 'm' && "tools"@[0] == 't');
    assert("silence"@[0] == 's' && "vehicle"@[0] == 'v');
    assert("silence"@[0] == 's' && "ambient"@[0] == 'a');
    assert("vehicle"@[0] == 'v' && "ambient"@[0] == 'a');
    assert("outside_urban_or_manmade"@[8] == 'u' && "outside_rural_or_natural"@[8] == 'r');
    assert("mechanisms"@[7] == 's' && "mechanical"@[7] == 'c');
}

/// A window lasts from its start to its end, and not at all where it ends before
/// it starts.
pub proof fn windows_last_from_start_to_end(source_start_ms: u64, source_end_ms: u64)
    ensures
        source_start_ms <= source_end_ms ==> source_start_ms + span(source_start_ms, source_end_ms)
            == source_end_ms,
        source_end_ms <= source_start_ms ==> span(source_start_ms, source_end_ms) == 0,
{
}

/// Each sound that bears a claim out lends it its label, and its words where it
/// has some; no other does.
pub proof fn supporters_lend_their_words(s: Seq<ObservationView>, o: ObservationView, m: MomentView)
    ensures
        supports(o, m) ==> supporting_labels(s.push(o), m) == supporting_labels(s, m).push(o.label),
        !supports(o, m) ==> supporting_labels(s.push(o), m) == supporting_labels(s, m),
        supports(o, m) && o.transcript is Some && trimmed(o.transcript->0).len() > 0
            ==> supporting_words(s.push(o), m) == supporting_words(s, m).push(
            trimmed(o.transcript->0),
        ),
        !supports(o, m) || o.transcript is None || trimmed(o.transcript->0).len() == 0
            ==> supporting_words(s.push(o), m) == supporting_words(s, m),
{
    assert(s.push(o).drop_last() =~= s);
}

/// What was heard is told to a model sound by sound, the first thirty-two of
/// them, each with its time, its label and how certain it is.
pub proof fn sounds_are_told_one_by_one(s: Seq<ObservationView>, o: ObservationView)
    ensures
        heard_lines(s.push(o)) == heard_lines(s) + heard_line(s.len(), o),
        o.transcript is None && o.emotion is None ==> heard_line(s.len(), o) == "\n- audio:"@
            + decimal(s.len()) + " "@ + decimal(o.start_offset_ms as nat) + ".."@ + decimal(
            o.end_offset_ms as nat,
        ) + "ms kind="@ + o.kind + " label="@ + o.label + " confidence="@ + o.confidence_text
            + " model="@ + o.model,
        s.len() > 32 ==> heard_account(s) == heard_account(s.take(32)),
        s.len() == 0 ==> heard_account(s)
            == "\nLocal audio front-end found no event above its calibrated threshold."@,
{
    assert(s.push(o).drop_last() =~= s);
}

} // verus!
